use vstd::prelude::*;

verus! {

/// The mapping that entries denote: each key to the value of its last entry.
pub open spec fn entries_map(es: Seq<(String, String)>) -> Map<Seq<char>, Seq<char>>
    decreases es.len(),
{
    if es.len() == 0 {
        Map::empty()
    } else {
        let last = es.last();
        entries_map(es.drop_last()).insert(last.0@, last.1@)
    }
}

/// Values to substitute for placeholders, by name.
///
/// Entries are kept in the order they were inserted; a later entry for a key
/// takes the place of the earlier ones.
pub struct Context {
    ctx: Vec<(String, String)>,
}

impl View for Context {
    type V = Map<Seq<char>, Seq<char>>;

    closed spec fn view(&self) -> Map<Seq<char>, Seq<char>> {
        entries_map(self.ctx@)
    }
}

impl Context {
    /// An empty context.
    pub fn new() -> (r: Self)
        ensures
            r@ == Map::<Seq<char>, Seq<char>>::empty(),
    {
        Self { ctx: Vec::new() }
    }

    /// Binds `key` to `value`, replacing any earlier binding of `key`.
    pub fn insert(&mut self, key: String, value: String)
        ensures
            final(self)@ == old(self)@.insert(key@, value@),
    {
        self.ctx.push((key, value));
        assert(self.ctx@.drop_last() =~= old(self).ctx@);
    }

    /// The value bound to `key`, if any.
    pub fn get(&mut self, key: String) -> (r: Option<String>)
        ensures
            *final(self) == *old(self),
            r is Some <==> old(self)@.contains_key(key@),
            r is Some ==> r->0@ == old(self)@[key@],
    {
        let mut i: usize = self.ctx.len();
        assert(self.ctx@.subrange(0, i as int) =~= self.ctx@);
        while i > 0
            invariant
                i <= self.ctx@.len(),
                entries_map(self.ctx@).contains_key(key@) == entries_map(
                    self.ctx@.subrange(0, i as int),
                ).contains_key(key@),
                entries_map(self.ctx@).contains_key(key@) ==> entries_map(self.ctx@)[key@]
                    == entries_map(self.ctx@.subrange(0, i as int))[key@],
            decreases i,
        {
            let ghost prefix = self.ctx@.subrange(0, i as int);
            assert(prefix.drop_last() =~= self.ctx@.subrange(0, i - 1));
            if self.ctx[i - 1].0 == key {
                return Some(self.ctx[i - 1].1.clone());
            }
            i = i - 1;
        }
        assert(self.ctx@.subrange(0, 0) =~= Seq::<(String, String)>::empty());
        None
    }
}

} // verus!

use vstd::prelude::*;
use crate::token::{Token, TokenView};

verus! {

/// A map from names to tokens (the variables of a run, or the fields and
/// methods of a class).
pub struct Env {
    entries: Vec<(String, Token)>,
}

/// The map that a list of entries with distinct names stands for.
pub open spec fn entries_map(s: Seq<(String, Token)>) -> Map<Seq<char>, TokenView> {
    Map::new(
        |key: Seq<char>| exists|i: int| 0 <= i < s.len() && (#[trigger] s[i]).0@ == key,
        |key: Seq<char>| s[choose|i: int| 0 <= i < s.len() && (#[trigger] s[i]).0@ == key].1@,
    )
}

/// No two entries have the same name.
pub open spec fn distinct_names(s: Seq<(String, Token)>) -> bool {
    forall|i: int, j: int| 0 <= i < s.len() && 0 <= j < s.len() && i != j ==> (#[trigger] s[i]).0@ != (#[trigger] s[j]).0@
}

proof fn lemma_entry(s: Seq<(String, Token)>, i: int)
    requires
        distinct_names(s),
        0 <= i < s.len(),
    ensures
        entries_map(s).contains_key(s[i].0@),
        entries_map(s)[s[i].0@] == s[i].1@,
{
    let key = s[i].0@;
    assert(entries_map(s).dom().contains(key));
    let j = choose|j: int| 0 <= j < s.len() && (#[trigger] s[j]).0@ == key;
    assert(j == i);
}

proof fn lemma_push(s: Seq<(String, Token)>, e: (String, Token))
    requires
        distinct_names(s),
        !entries_map(s).contains_key(e.0@),
    ensures
        distinct_names(s.push(e)),
        entries_map(s.push(e)) == entries_map(s).insert(e.0@, e.1@),
{
    let t = s.push(e);
    assert forall|i: int, j: int| 0 <= i < t.len() && 0 <= j < t.len() && i != j implies (#[trigger] t[i]).0@ != (#[trigger] t[j]).0@ by {
        if i == s.len() {
            if t[j].0@ == e.0@ {
                assert(entries_map(s).dom().contains(s[j].0@));
            }
        } else if j == s.len() {
            if t[i].0@ == e.0@ {
                assert(entries_map(s).dom().contains(s[i].0@));
            }
        }
    }
    assert forall|key: Seq<char>| #![auto] entries_map(t).contains_key(key) <==> entries_map(s).insert(e.0@, e.1@).contains_key(key) by {
        if entries_map(t).contains_key(key) {
            let i = choose|i: int| 0 <= i < t.len() && (#[trigger] t[i]).0@ == key;
            if i < s.len() {
                assert(s[i] == t[i]);
            }
        }
        if entries_map(s).contains_key(key) {
            let i = choose|i: int| 0 <= i < s.len() && (#[trigger] s[i]).0@ == key;
            assert(t[i] == s[i]);
        }
        if key == e.0@ {
            assert(t[s.len() as int] == e);
        }
    }
    assert forall|key: Seq<char>| entries_map(t).contains_key(key) implies entries_map(t)[key] == entries_map(s).insert(e.0@, e.1@)[key] by {
        let i = choose|i: int| 0 <= i < t.len() && (#[trigger] t[i]).0@ == key;
        lemma_entry(t, i);
        if i < s.len() {
            assert(t[i] == s[i]);
            lemma_entry(s, i);
        }
    }
    assert(entries_map(t) =~= entries_map(s).insert(e.0@, e.1@));
}

proof fn lemma_update(s: Seq<(String, Token)>, j: int, e: (String, Token))
    requires
        distinct_names(s),
        0 <= j < s.len(),
        s[j].0@ == e.0@,
    ensures
        distinct_names(s.update(j, e)),
        entries_map(s.update(j, e)) == entries_map(s).insert(e.0@, e.1@),
{
    let t = s.update(j, e);
    assert forall|a: int, b: int| 0 <= a < t.len() && 0 <= b < t.len() && a != b implies (#[trigger] t[a]).0@ != (#[trigger] t[b]).0@ by {
        assert(t[a].0@ == s[a].0@);
        assert(t[b].0@ == s[b].0@);
    }
    assert forall|key: Seq<char>| #![auto] entries_map(t).contains_key(key) <==> entries_map(s).insert(e.0@, e.1@).contains_key(key) by {
        if entries_map(t).contains_key(key) {
            let i = choose|i: int| 0 <= i < t.len() && (#[trigger] t[i]).0@ == key;
            assert(s[i].0@ == t[i].0@);
        }
        if entries_map(s).contains_key(key) {
            let i = choose|i: int| 0 <= i < s.len() && (#[trigger] s[i]).0@ == key;
            assert(t[i].0@ == s[i].0@);
        }
        if key == e.0@ {
            assert(t[j] == e);
        }
    }
    assert forall|key: Seq<char>| entries_map(t).contains_key(key) implies entries_map(t)[key] == entries_map(s).insert(e.0@, e.1@)[key] by {
        let i = choose|i: int| 0 <= i < t.len() && (#[trigger] t[i]).0@ == key;
        lemma_entry(t, i);
        if i != j {
            assert(t[i] == s[i]);
            lemma_entry(s, i);
        }
    }
    assert(entries_map(t) =~= entries_map(s).insert(e.0@, e.1@));
}

proof fn lemma_prefix_step(s: Seq<(String, Token)>, i: int)
    requires
        distinct_names(s),
        0 <= i < s.len(),
    ensures
        entries_map(s.subrange(0, i + 1)) == entries_map(s.subrange(0, i)).insert(s[i].0@, s[i].1@),
{
    let p = s.subrange(0, i);
    assert(distinct_names(p));
    if entries_map(p).contains_key(s[i].0@) {
        let j = choose|j: int| 0 <= j < p.len() && (#[trigger] p[j]).0@ == s[i].0@;
        assert(s[j].0@ == s[i].0@);
    }
    lemma_push(p, s[i]);
    assert(p.push(s[i]) =~= s.subrange(0, i + 1));
}

impl View for Env {
    type V = Map<Seq<char>, TokenView>;

    closed spec fn view(&self) -> Map<Seq<char>, TokenView> {
        entries_map(self.entries@)
    }
}

impl Env {
    #[verifier::type_invariant]
    closed spec fn inv(self) -> bool {
        distinct_names(self.entries@)
    }

    /// The empty map.
    pub fn new() -> (r: Env)
        ensures
            r@ == Map::<Seq<char>, TokenView>::empty(),
    {
        let r = Env { entries: Vec::new() };
        assert(entries_map(r.entries@) =~= Map::<Seq<char>, TokenView>::empty());
        r
    }

    /// The token bound to `name`, if any.
    pub fn get(&self, name: &String) -> (r: Option<&Token>)
        ensures
            match r {
                Some(t) => self@.contains_key(name@) && t@ == self@[name@],
                None => !self@.contains_key(name@),
            },
    {
        proof {
            use_type_invariant(self);
        }
        let mut i: usize = 0;
        while i < self.entries.len()
            invariant
                i <= self.entries@.len(),
                distinct_names(self.entries@),
                forall|j: int| 0 <= j < i ==> (#[trigger] self.entries@[j]).0@ != name@,
            decreases self.entries.len() - i,
        {
            if self.entries[i].0 == *name {
                proof {
                    lemma_entry(self.entries@, i as int);
                }
                return Some(&self.entries[i].1);
            }
            i = i + 1;
        }
        None
    }

    /// Binds `name` to `value`, in place of what it was bound to.
    pub fn insert(&mut self, name: String, value: Token)
        ensures
            final(self)@ == old(self)@.insert(name@, value@),
    {
        proof {
            use_type_invariant(&*self);
        }
        let mut entries = Vec::new();
        std::mem::swap(&mut entries, &mut self.entries);
        let mut i: usize = 0;
        while i < entries.len()
            invariant
                i <= entries@.len(),
                distinct_names(entries@),
                entries@ == old(self).entries@,
                forall|j: int| 0 <= j < i ==> (#[trigger] entries@[j]).0@ != name@,
            decreases entries.len() - i,
        {
            if entries[i].0 == name {
                proof {
                    lemma_update(entries@, i as int, (name, value));
                }
                entries.set(i, (name, value));
                self.entries = entries;
                return;
            }
            i = i + 1;
        }
        proof {
            if entries_map(entries@).contains_key(name@) {
                let j = choose|j: int| 0 <= j < entries@.len() && (#[trigger] entries@[j]).0@ == name@;
            }
            lemma_push(entries@, (name, value));
        }
        entries.push((name, value));
        self.entries = entries;
    }

    /// A copy with the same bindings.
    pub fn duplicate(&self) -> (r: Env)
        ensures
            r@ == self@,
    {
        proof {
            use_type_invariant(self);
        }
        let mut entries: Vec<(String, Token)> = Vec::new();
        let mut i: usize = 0;
        while i < self.entries.len()
            invariant
                i <= self.entries@.len(),
                distinct_names(self.entries@),
                entries@.len() == i,
                forall|j: int| 0 <= j < i ==> (#[trigger] entries@[j]).0@ == self.entries@[j].0@
                    && entries@[j].1@ == self.entries@[j].1@,
            decreases self.entries.len() - i,
        {
            let name = self.entries[i].0.clone();
            let value = self.entries[i].1.duplicate();
            entries.push((name, value));
            i = i + 1;
        }
        proof {
            assert forall|a: int, b: int| 0 <= a < entries@.len() && 0 <= b < entries@.len() && a != b implies (#[trigger] entries@[a]).0@ != (#[trigger] entries@[b]).0@ by {
                assert(self.entries@[a].0@ != self.entries@[b].0@);
            }
            assert forall|key: Seq<char>| #![auto] entries_map(entries@).contains_key(key) <==> entries_map(self.entries@).contains_key(key) by {
                if entries_map(entries@).contains_key(key) {
                    let i = choose|i: int| 0 <= i < entries@.len() && (#[trigger] entries@[i]).0@ == key;
                    assert(self.entries@[i].0@ == key);
                }
                if entries_map(self.entries@).contains_key(key) {
                    let i = choose|i: int| 0 <= i < self.entries@.len() && (#[trigger] self.entries@[i]).0@ == key;
                    assert(entries@[i].0@ == key);
                }
            }
            assert forall|key: Seq<char>| entries_map(entries@).contains_key(key) implies entries_map(entries@)[key] == entries_map(self.entries@)[key] by {
                let i = choose|i: int| 0 <= i < entries@.len() && (#[trigger] entries@[i]).0@ == key;
                lemma_entry(entries@, i);
                lemma_entry(self.entries@, i);
            }
            assert(entries_map(entries@) =~= entries_map(self.entries@));
        }
        Env { entries }
    }

    /// Binds each name of `other` to its token there, in place of what it was
    /// bound to here.
    pub fn extend(&mut self, other: Env)
        ensures
            final(self)@ == old(self)@.union_prefer_right(other@),
    {
        proof {
            use_type_invariant(&other);
        }
        let mut i: usize = 0;
        while i < other.entries.len()
            invariant
                i <= other.entries@.len(),
                distinct_names(other.entries@),
                self@ == old(self)@.union_prefer_right(entries_map(other.entries@.subrange(0, i as int))),
            decreases other.entries.len() - i,
        {
            let name = other.entries[i].0.clone();
            let value = other.entries[i].1.duplicate();
            let ghost before = self@;
            proof {
                lemma_prefix_step(other.entries@, i as int);
            }
            self.insert(name, value);
            proof {
                let s = other.entries@;
                let p = entries_map(s.subrange(0, i as int));
                assert(old(self)@.union_prefer_right(p.insert(s[i as int].0@, s[i as int].1@))
                    =~= old(self)@.union_prefer_right(p).insert(s[i as int].0@, s[i as int].1@));
            }
            i = i + 1;
        }
        proof {
            assert(other.entries@.subrange(0, other.entries@.len() as int) =~= other.entries@);
        }
    }
}

} // verus!

use vstd::prelude::*;
use crate::value::Upvalue;

verus! {

/// The strings in `t` are pairwise distinct.
pub open spec fn distinct_strings(t: Seq<Seq<char>>) -> bool {
    forall|i: int, j: int| 0 <= i < j < t.len() ==> #[trigger] t[i] != #[trigger] t[j]
}

/// Whether `s` is in the table `t`.
pub open spec fn interned(t: Seq<Seq<char>>, s: Seq<char>) -> bool {
    exists|i: int| 0 <= i < t.len() && t[i] == s
}

/// Interning `s` into the table `t`: the table afterwards and the id handed out.
/// A string already present keeps its id; a new one is appended.
pub open spec fn intern_spec(t: Seq<Seq<char>>, s: Seq<char>) -> (Seq<Seq<char>>, nat) {
    if interned(t, s) {
        (t, (choose|i: int| 0 <= i < t.len() && t[i] == s) as nat)
    } else {
        (t.push(s), t.len())
    }
}

/// The process context: the string interning table, the upvalue cells and the
/// registry of upvalues that are still open.
pub struct Agent {
    pub string_table: Vec<String>,
    /// Every upvalue cell ever created; a handle is an index here.
    pub upvalue_cells: Vec<Upvalue>,
    /// Handles of the open upvalues, oldest first.
    pub upvalues: Vec<usize>,
}

impl Agent {
    /// The interned strings, by id.
    pub open spec fn strings(&self) -> Seq<Seq<char>> {
        self.string_table@.map_values(|s: String| s@)
    }

    pub open spec fn wf(&self) -> bool {
        distinct_strings(self.strings())
    }

    /// An agent with no strings and no upvalues.
    pub fn new() -> (r: Agent)
        ensures
            r.wf(),
            r.strings() == Seq::<Seq<char>>::empty(),
            r.upvalue_cells@ == Seq::<Upvalue>::empty(),
            r.upvalues@ == Seq::<usize>::empty(),
    {
        let r = Agent { string_table: Vec::new(), upvalue_cells: Vec::new(), upvalues: Vec::new() };
        assert(r.strings() =~= Seq::<Seq<char>>::empty());
        r
    }

    /// The id of `s`: the one it already has, or the next free one, under which
    /// it is added.
    pub fn intern_string(&mut self, s: &str) -> (r: usize)
        requires
            old(self).wf(),
        ensures
            final(self).wf(),
            (final(self).strings(), r as nat) == intern_spec(old(self).strings(), s@),
            r < final(self).strings().len(),
            final(self).strings()[r as int] == s@,
            final(self).upvalue_cells == old(self).upvalue_cells,
            final(self).upvalues == old(self).upvalues,
    {
        let owned = s.to_owned();
        let mut i: usize = 0;
        while i < self.string_table.len()
            invariant
                self.wf(),
                owned@ == s@,
                0 <= i <= self.string_table@.len(),
                self == old(self),
                forall|j: int| 0 <= j < i ==> self.strings()[j] != s@,
            decreases self.string_table@.len() - i,
        {
            if self.string_table[i] == owned {
                assert(self.strings()[i as int] == s@);
                assert(interned(self.strings(), s@));
                let ghost c = choose|k: int| 0 <= k < self.strings().len() && self.strings()[k] == s@;
                assert(c == i) by {
                    if c != i {
                        if c < i {
                            assert(self.strings()[c] != self.strings()[i as int]);
                        } else {
                            assert(self.strings()[i as int] != self.strings()[c]);
                        }
                    }
                }
                return i;
            }
            i = i + 1;
        }
        assert(!interned(self.strings(), s@));
        let idx = self.string_table.len();
        self.string_table.push(owned);
        assert(self.strings() =~= old(self).strings().push(s@));
        idx
    }
}

/// Interning is injective: two strings interned one after the other get the
/// same id exactly when they are equal, and ids stay below the table's length.
pub proof fn lemma_intern_ids_identify_strings(t: Seq<Seq<char>>, s1: Seq<char>, s2: Seq<char>)
    requires
        distinct_strings(t),
    ensures
        ({
            let (t1, a) = intern_spec(t, s1);
            let (t2, b) = intern_spec(t1, s2);
            &&& (a == b <==> s1 == s2)
            &&& a < t1.len() && b < t2.len()
            &&& t1[a as int] == s1 && t2[b as int] == s2
        }),
{
    lemma_intern_keeps_distinct(t, s1);
    let (t1, a) = intern_spec(t, s1);
    lemma_intern_keeps_distinct(t1, s2);
    let (t2, b) = intern_spec(t1, s2);
    assert(t2.len() >= t1.len());
    assert(forall|i: int| 0 <= i < t1.len() ==> t2[i] == t1[i]);
}

/// Interning keeps the table free of duplicates, only ever appends, and hands
/// out the index of the string.
pub proof fn lemma_intern_keeps_distinct(t: Seq<Seq<char>>, s: Seq<char>)
    requires
        distinct_strings(t),
    ensures
        ({
            let (t1, a) = intern_spec(t, s);
            &&& distinct_strings(t1)
            &&& a < t1.len() && t1[a as int] == s
            &&& t1.len() >= t.len()
            &&& forall|i: int| 0 <= i < t.len() ==> t1[i] == t[i]
        }),
{
    if !interned(t, s) {
        let t1 = t.push(s);
        assert forall|i: int, j: int| 0 <= i < j < t1.len() implies #[trigger] t1[i] != #[trigger] t1[j] by {
            if j == t.len() {
                assert(t1[i] == t[i]);
            }
        }
    }
}

} // verus!

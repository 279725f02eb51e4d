//! The names that a builder has been given: a set kept in the order of the
//! bytes of the names, so that what is built from it does not depend on the
//! order in which the names were given.
use crate::green::Name;
use crate::text::lemma_encode_injective;
use vstd::prelude::*;
use vstd::string::*;
use vstd::utf8::*;

verus! {

/// Whether the bytes `a` come before the bytes `b` in dictionary order, given
/// that they agree before `from`.
pub open spec fn bytes_before_from(a: Seq<u8>, b: Seq<u8>, from: int) -> bool
    decreases a.len() - from,
{
    if from >= b.len() {
        false
    } else if from >= a.len() {
        true
    } else if a[from] != b[from] {
        a[from] < b[from]
    } else {
        bytes_before_from(a, b, from + 1)
    }
}

/// Whether the name `a` comes before the name `b`: by the dictionary order
/// of their bytes, the order in which strings are sorted.
pub open spec fn name_before(a: Seq<char>, b: Seq<char>) -> bool {
    bytes_before_from(encode_utf8(a), encode_utf8(b), 0)
}

/// Whether each name of `names` comes before the ones after it.
pub open spec fn increasing(names: Seq<Seq<char>>) -> bool {
    forall|i: int, j: int| 0 <= i < j < names.len() ==> name_before(names[i], names[j])
}

/// The number of names at the front of `names` that come before `name`.
pub open spec fn rank(names: Seq<Seq<char>>, name: Seq<char>) -> int
    decreases names.len(),
{
    if names.len() == 0 || !name_before(names[0], name) {
        0
    } else {
        1 + rank(names.drop_first(), name)
    }
}

/// `names` with `name` put in its place, unless it is there already.
pub open spec fn placed(names: Seq<Seq<char>>, name: Seq<char>) -> Seq<Seq<char>> {
    if names.contains(name) {
        names
    } else {
        names.insert(rank(names, name), name)
    }
}

proof fn lemma_irreflexive_from(a: Seq<u8>, from: int)
    requires
        0 <= from,
    ensures
        !bytes_before_from(a, a, from),
    decreases a.len() - from,
{
    if from < a.len() {
        lemma_irreflexive_from(a, from + 1);
    }
}

proof fn lemma_transitive_from(a: Seq<u8>, b: Seq<u8>, c: Seq<u8>, from: int)
    requires
        0 <= from,
        bytes_before_from(a, b, from),
        bytes_before_from(b, c, from),
    ensures
        bytes_before_from(a, c, from),
    decreases a.len() - from,
{
    if from < a.len() && from < b.len() && from < c.len() && a[from] == b[from] && b[from]
        == c[from] {
        lemma_transitive_from(a, b, c, from + 1);
    }
}

proof fn lemma_total_from(a: Seq<u8>, b: Seq<u8>, from: int)
    requires
        0 <= from <= a.len(),
        from <= b.len(),
        forall|k: int| 0 <= k < from ==> a[k] == b[k],
        !bytes_before_from(a, b, from),
        !bytes_before_from(b, a, from),
    ensures
        a == b,
    decreases a.len() - from,
{
    if from < a.len() && from < b.len() {
        lemma_total_from(a, b, from + 1);
    } else {
        assert(a =~= b);
    }
}

/// No name comes before itself.
pub proof fn lemma_before_irreflexive(a: Seq<char>)
    ensures
        !name_before(a, a),
{
    lemma_irreflexive_from(encode_utf8(a), 0);
}

/// Coming before is transitive.
pub proof fn lemma_before_transitive(a: Seq<char>, b: Seq<char>, c: Seq<char>)
    requires
        name_before(a, b),
        name_before(b, c),
    ensures
        name_before(a, c),
{
    lemma_transitive_from(encode_utf8(a), encode_utf8(b), encode_utf8(c), 0);
}

/// Of two different names one comes before the other.
pub proof fn law_before_total(a: Seq<char>, b: Seq<char>)
    requires
        !name_before(a, b),
        !name_before(b, a),
    ensures
        a == b,
{
    lemma_total_from(encode_utf8(a), encode_utf8(b), 0);
    lemma_encode_injective(a, b);
}

/// In an increasing sequence, the rank of a name is the index up to which
/// the names come before it.
proof fn lemma_rank(names: Seq<Seq<char>>, name: Seq<char>, at: int)
    requires
        increasing(names),
        0 <= at <= names.len(),
        forall|k: int| 0 <= k < at ==> name_before(names[k], name),
        at < names.len() ==> !name_before(names[at], name),
    ensures
        rank(names, name) == at,
    decreases names.len(),
{
    if at > 0 {
        let tail = names.drop_first();
        assert forall|i: int, j: int| 0 <= i < j < tail.len() implies name_before(
            tail[i],
            tail[j],
        ) by {
            assert(tail[i] == names[i + 1] && tail[j] == names[j + 1]);
        }
        assert forall|k: int| 0 <= k < at - 1 implies name_before(tail[k], name) by {
            assert(tail[k] == names[k + 1]);
        }
        if at < names.len() {
            assert(tail[at - 1] == names[at]);
        }
        lemma_rank(tail, name, at - 1);
    }
}

/// The rank of a name in an increasing sequence is the index up to which
/// the names come before it.
proof fn lemma_rank_bounds(names: Seq<Seq<char>>, name: Seq<char>)
    requires
        increasing(names),
    ensures
        0 <= rank(names, name) <= names.len(),
        forall|k: int| 0 <= k < rank(names, name) ==> name_before(#[trigger] names[k], name),
        rank(names, name) < names.len() ==> !name_before(names[rank(names, name)], name),
    decreases names.len(),
{
    if names.len() > 0 && name_before(names[0], name) {
        let tail = names.drop_first();
        assert forall|i: int, j: int| 0 <= i < j < tail.len() implies name_before(
            tail[i],
            tail[j],
        ) by {
            assert(tail[i] == names[i + 1] && tail[j] == names[j + 1]);
        }
        lemma_rank_bounds(tail, name);
        assert forall|k: int| 0 <= k < rank(names, name) implies name_before(
            #[trigger] names[k],
            name,
        ) by {
            if k > 0 {
                assert(names[k] == tail[k - 1]);
            }
        }
        if rank(names, name) < names.len() {
            assert(names[rank(names, name)] == tail[rank(tail, name)]);
        }
    }
}

/// Putting a name in its place keeps the names increasing, adds the name
/// and nothing else, and drops none.
pub proof fn law_placed(names: Seq<Seq<char>>, name: Seq<char>)
    requires
        increasing(names),
    ensures
        increasing(placed(names, name)),
        forall|other: Seq<char>|
            placed(names, name).contains(other) <==> names.contains(other) || other == name,
{
    let after = placed(names, name);
    if names.contains(name) {
    } else {
        let at = rank(names, name);
        lemma_rank_bounds(names, name);
        assert forall|k: int| at <= k < names.len() implies name_before(name, names[k]) by {
            if name_before(names[at], name) {
            } else if !name_before(name, names[at]) {
                law_before_total(name, names[at]);
                assert(names.contains(name));
            }
            if k > at {
                lemma_before_transitive(name, names[at], names[k]);
            }
        }
        assert forall|i: int, j: int| 0 <= i < j < after.len() implies name_before(
            after[i],
            after[j],
        ) by {
            if i < at && j > at {
                lemma_before_transitive(names[i], name, names[j - 1]);
            }
        }
        assert forall|other: Seq<char>|
            after.contains(other) <==> names.contains(other) || other == name by {
            if after.contains(other) {
                let k = choose|k: int| 0 <= k < after.len() && after[k] == other;
                if k < at {
                    assert(names[k] == other);
                } else if k > at {
                    assert(names[k - 1] == other);
                }
            }
            if names.contains(other) {
                let k = choose|k: int| 0 <= k < names.len() && names[k] == other;
                if k < at {
                    assert(after[k] == other);
                } else {
                    assert(after[k + 1] == other);
                }
            }
            if other == name {
                assert(after[at] == other);
            }
        }
    }
}

/// Two increasing sequences with the same names are the same sequence.
pub proof fn law_increasing_unique(a: Seq<Seq<char>>, b: Seq<Seq<char>>)
    requires
        increasing(a),
        increasing(b),
        forall|name: Seq<char>| a.contains(name) <==> b.contains(name),
    ensures
        a == b,
    decreases a.len(),
{
    if a.len() == 0 {
        if b.len() > 0 {
            assert(b.contains(b[0]));
        }
        assert(a =~= b);
    } else {
        assert(a.contains(a[0]));
        let j = choose|j: int| 0 <= j < b.len() && b[j] == a[0];
        assert(b.contains(b[0]));
        let i = choose|i: int| 0 <= i < a.len() && a[i] == b[0];
        lemma_before_irreflexive(a[0]);
        if j > 0 {
            if i > 0 {
                lemma_before_transitive(a[0], b[0], a[0]);
            }
        }
        assert(a[0] == b[0]);
        let x = a.drop_first();
        let y = b.drop_first();
        assert forall|p: int, q: int| 0 <= p < q < x.len() implies name_before(x[p], x[q]) by {
            assert(x[p] == a[p + 1] && x[q] == a[q + 1]);
        }
        assert forall|p: int, q: int| 0 <= p < q < y.len() implies name_before(y[p], y[q]) by {
            assert(y[p] == b[p + 1] && y[q] == b[q + 1]);
        }
        assert forall|name: Seq<char>| x.contains(name) <==> y.contains(name) by {
            if x.contains(name) {
                let k = choose|k: int| 0 <= k < x.len() && x[k] == name;
                assert(a[k + 1] == name);
                assert(a.contains(name));
                let m = choose|m: int| 0 <= m < b.len() && b[m] == name;
                lemma_before_irreflexive(name);
                assert(name_before(a[0], a[k + 1]));
                assert(m > 0);
                assert(y[m - 1] == name);
            }
            if y.contains(name) {
                let k = choose|k: int| 0 <= k < y.len() && y[k] == name;
                assert(b[k + 1] == name);
                assert(b.contains(name));
                let m = choose|m: int| 0 <= m < a.len() && a[m] == name;
                lemma_before_irreflexive(name);
                assert(name_before(b[0], b[k + 1]));
                assert(m > 0);
                assert(x[m - 1] == name);
            }
        }
        law_increasing_unique(x, y);
        assert(a =~= seq![a[0]] + x);
        assert(b =~= seq![b[0]] + y);
    }
}

/// The order in which names are given does not matter.
pub proof fn law_placed_commutes(names: Seq<Seq<char>>, first: Seq<char>, second: Seq<char>)
    requires
        increasing(names),
    ensures
        placed(placed(names, first), second) == placed(placed(names, second), first),
        placed(placed(names, first), first) == placed(names, first),
{
    law_placed(names, first);
    law_placed(names, second);
    law_placed(placed(names, first), second);
    law_placed(placed(names, second), first);
    let one = placed(placed(names, first), second);
    let two = placed(placed(names, second), first);
    assert forall|name: Seq<char>| one.contains(name) <==> two.contains(name) by {
        assert(placed(names, first).contains(name) <==> names.contains(name) || name == first);
        assert(placed(names, second).contains(name) <==> names.contains(name) || name == second);
    }
    assert(placed(names, first).contains(first));
    law_increasing_unique(
        placed(placed(names, first), second),
        placed(placed(names, second), first),
    );
}

/// Where one name stands to another.
pub enum Side {
    Before,
    Same,
    After,
}

/// Where the name `a` stands to the name `b` in the order of their bytes.
pub fn side(a: &str, b: &str) -> (s: Side)
    ensures
        match s {
            Side::Before => name_before(a@, b@),
            Side::Same => a@ == b@,
            Side::After => name_before(b@, a@),
        },
{
    let x = a.as_bytes();
    let y = b.as_bytes();
    let mut i: usize = 0;
    while i < x.len() && i < y.len()
        invariant
            x@ == encode_utf8(a@),
            y@ == encode_utf8(b@),
            i <= x.len(),
            i <= y.len(),
            forall|k: int| 0 <= k < i ==> x@[k] == y@[k],
            bytes_before_from(x@, y@, 0) == bytes_before_from(x@, y@, i as int),
            bytes_before_from(y@, x@, 0) == bytes_before_from(y@, x@, i as int),
        decreases x.len() - i,
    {
        if x[i] < y[i] {
            return Side::Before;
        }
        if y[i] < x[i] {
            return Side::After;
        }
        i += 1;
    }
    if i < y.len() {
        Side::Before
    } else if i < x.len() {
        Side::After
    } else {
        proof {
            assert(x@ =~= y@);
            lemma_encode_injective(a@, b@);
        }
        Side::Same
    }
}

/// A set of names, held in increasing order.
pub struct NameSet {
    names: Vec<Name>,
}

impl NameSet {
    #[verifier::type_invariant]
    spec fn sorted(&self) -> bool {
        increasing(self.view())
    }

    /// The names, each before the ones after it.
    pub closed spec fn view(&self) -> Seq<Seq<char>> {
        Seq::new(self.names@.len(), |i: int| self.names@[i]@)
    }

    /// The set without a name.
    pub fn new() -> (set: NameSet)
        ensures
            set@ == Seq::<Seq<char>>::empty(),
    {
        let set = NameSet { names: Vec::new() };
        proof {
            assert(set@ =~= Seq::<Seq<char>>::empty());
        }
        set
    }

    /// The number of names.
    pub fn len(&self) -> (n: usize)
        ensures
            n == self@.len(),
            increasing(self@),
    {
        proof {
            use_type_invariant(self);
        }
        self.names.len()
    }

    /// The name at `index` in increasing order.
    pub fn get(&self, index: usize) -> (name: Name)
        requires
            index < self@.len(),
        ensures
            name@ == self@[index as int],
    {
        self.names[index]
    }

    /// Puts `name` in its place among the names, unless it is there already.
    pub fn insert(&mut self, name: Name)
        ensures
            final(self)@ == placed(old(self)@, name@),
    {
        proof {
            use_type_invariant(&*self);
        }
        let mut names: Vec<Name> = Vec::new();
        core::mem::swap(&mut self.names, &mut names);
        let ghost before = Seq::new(names@.len(), |i: int| names@[i]@);
        let mut at: usize = 0;
        let mut found = false;
        while at < names.len()
            invariant_except_break
                !found,
            invariant
                at <= names.len(),
                before == Seq::new(names@.len(), |i: int| names@[i]@),
                forall|k: int| 0 <= k < at ==> name_before(before[k], name@),
            ensures
                at <= names.len(),
                before == Seq::new(names@.len(), |i: int| names@[i]@),
                forall|k: int| 0 <= k < at ==> name_before(before[k], name@),
                found ==> at < names.len() && before[at as int] == name@,
                !found && at < names.len() ==> name_before(name@, before[at as int]),
            decreases names.len() - at,
        {
            match side(names[at], name) {
                Side::Before => {
                    at += 1;
                },
                Side::Same => {
                    found = true;
                    break ;
                },
                Side::After => {
                    break ;
                },
            }
        }
        if !found {
            proof {
                assert(!before.contains(name@)) by {
                    if before.contains(name@) {
                        let k = choose|k: int| 0 <= k < before.len() && before[k] == name@;
                        lemma_before_irreflexive(name@);
                        if k >= at {
                            if k > at {
                                lemma_before_transitive(name@, before[at as int], before[k]);
                            }
                        }
                    }
                }
                if at < names.len() {
                    lemma_before_irreflexive(name@);
                    if name_before(before[at as int], name@) {
                        lemma_before_transitive(name@, before[at as int], name@);
                    }
                }
                lemma_rank(before, name@, at as int);
            }
            names.insert(at, name);
            proof {
                let after = Seq::new(names@.len(), |i: int| names@[i]@);
                assert(after =~= before.insert(at as int, name@));
                assert forall|k: int| at <= k < before.len() implies name_before(
                    name@,
                    before[k],
                ) by {
                    if k > at {
                        lemma_before_transitive(name@, before[at as int], before[k]);
                    }
                }
                assert forall|i: int, j: int| 0 <= i < j < after.len() implies name_before(
                    after[i],
                    after[j],
                ) by {
                    if i < at && j > at {
                        lemma_before_transitive(before[i], name@, before[j - 1]);
                    }
                }
            }
        } else {
            proof {
                assert(before.contains(name@));
            }
        }
        core::mem::swap(&mut self.names, &mut names);
    }
}

} // verus!

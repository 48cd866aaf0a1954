//! The ranking model: a permutation of the fixed set of developers, from
//! best (index 0) to worst (last index).

use vstd::prelude::*;
use rand::RngExt;
use rand::seq::SliceRandom;

verus! {

use vstd::math::abs;
use vstd::string::StringExecFns;

/// One of the fixed, small set of developers being ranked.
#[derive(Clone, Copy, Debug, PartialEq, Eq, Structural)]
pub enum Developer {
    Evan,
    Jessie,
    John,
    Matt,
    Sarah,
}

/// The fixed reference order of the developer universe, alphabetical.
pub open spec fn universe() -> Seq<Developer> {
    seq![
        Developer::Evan,
        Developer::Jessie,
        Developer::John,
        Developer::Matt,
        Developer::Sarah,
    ]
}

/// A well-formed ranking holds exactly the developer universe: the same
/// items with the same multiplicities (so each developer exactly once),
/// in some order.
pub open spec fn is_permutation_of_universe(s: Seq<Developer>) -> bool {
    &&& s.len() == universe().len()
    &&& s.to_multiset() == universe().to_multiset()
}

/// The position of developer `d` in the order `s`. Meaningful whenever `d`
/// occurs in `s`; unique whenever `s` has no duplicates.
pub open spec fn position_in(s: Seq<Developer>, d: Developer) -> int {
    choose|i: int| 0 <= i < s.len() && s[i] == d
}

/// How far `b` ranks below `a` in `s`: positive when `b` stands closer to
/// the worst end than `a`, zero when the two coincide.
pub open spec fn relative_rank(s: Seq<Developer>, a: Developer, b: Developer) -> int {
    position_in(s, b) - position_in(s, a)
}

/// The display label of a developer.
pub open spec fn spec_name(d: Developer) -> Seq<char> {
    match d {
        Developer::Evan => "Evan"@,
        Developer::Jessie => "Jessie"@,
        Developer::John => "John"@,
        Developer::Matt => "Matt"@,
        Developer::Sarah => "Sarah"@,
    }
}

/// The middle of a display string: the labels of the developers at the
/// positions `from` up to (excluding) `to`, each followed by an arrow.
pub open spec fn spec_middle(s: Seq<Developer>, from: int, to: int) -> Seq<char>
    decreases to - from,
{
    if from >= to {
        Seq::empty()
    } else {
        spec_name(s[from]) + " -> "@ + spec_middle(s, from + 1, to)
    }
}

/// The display string of an order: the labels from best to worst joined by
/// arrows, with the ends marked, and the zero- and one-item orders given
/// without any separator.
pub open spec fn spec_display(s: Seq<Developer>) -> Seq<char> {
    if s.len() == 0 {
        "Empty ranking"@
    } else if s.len() == 1 {
        spec_name(s[0])
    } else {
        spec_name(s[0]) + " (best) -> "@ + spec_middle(s, 1, s.len() - 1) + spec_name(
            s[s.len() - 1],
        ) + " (worst)"@
    }
}

/// A total order over the developers, from best (index 0) to worst (last).
#[derive(Debug, PartialEq)]
pub struct Ranking {
    order: Vec<Developer>,
}

impl View for Ranking {
    type V = Seq<Developer>;

    closed spec fn view(&self) -> Seq<Developer> {
        self.order@
    }
}

impl Clone for Ranking {
    fn clone(&self) -> (r: Self)
        ensures
            r@ == self@,
    {
        let order = self.order.clone();
        proof {
            assert(order@ =~= self.order@);
        }
        Ranking { order }
    }
}

/// Every well-formed ranking ranks all five developers, each exactly once.
pub proof fn lemma_permutation_facts(s: Seq<Developer>)
    requires
        is_permutation_of_universe(s),
    ensures
        s.len() == 5,
        s.no_duplicates(),
        forall|d: Developer| s.contains(d),
{
    broadcast use vstd::seq_lib::group_to_multiset_ensures;

    let u = universe();
    assert(u.to_multiset().len() == u.len());
    assert(s.to_multiset().len() == s.len());
    assert(u.no_duplicates());
    u.lemma_multiset_has_no_duplicates();
    s.lemma_multiset_has_no_duplicates_conv();
    assert forall|d: Developer| s.contains(d) by {
        match d {
            Developer::Evan => assert(u[0] == d),
            Developer::Jessie => assert(u[1] == d),
            Developer::John => assert(u[2] == d),
            Developer::Matt => assert(u[3] == d),
            Developer::Sarah => assert(u[4] == d),
        }
        assert(u.contains(d));
        assert(s.to_multiset().count(d) > 0);
    }
}

/// In an order without duplicates, any index that holds `d` is the position
/// of `d`.
proof fn lemma_position_unique(s: Seq<Developer>, d: Developer, i: int)
    requires
        s.no_duplicates(),
        0 <= i < s.len(),
        s[i] == d,
    ensures
        position_in(s, d) == i,
{
    assert(0 <= position_in(s, d) < s.len() && s[position_in(s, d)] == d);
}

/// `relative_rank(s, x, x) == 0`: a developer never outranks itself.
pub proof fn lemma_relative_rank_self(s: Seq<Developer>, x: Developer)
    requires
        is_permutation_of_universe(s),
    ensures
        relative_rank(s, x, x) == 0,
{
}

/// Swapping the two arguments of `relative_rank` negates it.
pub proof fn lemma_relative_rank_antisymmetric(s: Seq<Developer>, a: Developer, b: Developer)
    requires
        is_permutation_of_universe(s),
    ensures
        relative_rank(s, a, b) == -relative_rank(s, b, a),
{
}

/// The magnitude of `relative_rank` depends only on how far apart the two
/// developers stand: any order that keeps both of their positions shifted
/// by one common offset keeps the magnitude.
pub proof fn lemma_relative_rank_shift_invariant(
    s1: Seq<Developer>,
    s2: Seq<Developer>,
    a: Developer,
    b: Developer,
    offset: int,
)
    requires
        is_permutation_of_universe(s1),
        is_permutation_of_universe(s2),
        position_in(s2, a) == position_in(s1, a) + offset,
        position_in(s2, b) == position_in(s1, b) + offset,
    ensures
        abs(relative_rank(s2, a, b)) == abs(relative_rank(s1, a, b)),
{
}

/// Swapping the entries at two positions of an order keeps its multiset of
/// items.
proof fn lemma_swap_preserves_multiset(s: Seq<Developer>, i: int, j: int)
    requires
        0 <= i < s.len(),
        0 <= j < s.len(),
    ensures
        s.update(i, s[j]).update(j, s[i]).to_multiset() == s.to_multiset(),
{
    broadcast use vstd::seq_lib::group_to_multiset_ensures;
    broadcast use vstd::multiset::group_multiset_axioms;

    if i == j {
        assert(s.update(i, s[j]).update(j, s[i]) =~= s);
    } else {
        let s1 = s.update(i, s[j]);
        let s2 = s1.update(j, s[i]);
        assert(s.contains(s[i]));
        assert(s.contains(s[j]));
        assert(s.to_multiset().count(s[i]) > 0);
        assert(s.to_multiset().count(s[j]) > 0);
        assert(s1[j] == s[j]);
        assert(s2.to_multiset() =~= s.to_multiset());
    }
}

/// Relies on rand::seq::SliceRandom::shuffle: it permutes the slice in
/// place (uniformly over all permutations), so the vector afterwards holds
/// the same items with the same multiplicities, in some order.
#[verifier::external_body]
fn shuffle_in_place(order: &mut Vec<Developer>)
    ensures
        final(order)@.to_multiset() == old(order)@.to_multiset(),
{
    order.shuffle(&mut rand::rng());
}

/// Relies on rand::RngExt::random_range: on the non-empty range
/// `0..len` it returns a value drawn from that range.
#[verifier::external_body]
fn random_index(len: usize) -> (r: usize)
    requires
        len > 0,
    ensures
        r < len,
{
    rand::rng().random_range(0..len)
}

impl Ranking {
    /// The canonical ranking: all developers in alphabetical order.
    pub fn alphabetical() -> (r: Ranking)
        ensures
            r@ == universe(),
            is_permutation_of_universe(r@),
    {
        let order: Vec<Developer> = vec![
            Developer::Evan,
            Developer::Jessie,
            Developer::John,
            Developer::Matt,
            Developer::Sarah,
        ];
        proof {
            assert(order@ =~= universe());
        }
        Ranking { order }
    }

    /// A ranking with the given order, best first. The caller chooses the
    /// items; nothing here requires them to cover the universe.
    pub fn new(order: Vec<Developer>) -> (r: Ranking)
        ensures
            r@ == order@,
    {
        Ranking { order }
    }

    /// A uniformly random ranking of all five developers.
    pub fn random() -> (r: Ranking)
        ensures
            is_permutation_of_universe(r@),
    {
        let start = Ranking::alphabetical();
        let mut order = start.order;
        shuffle_in_place(&mut order);
        proof {
            broadcast use vstd::seq_lib::group_to_multiset_ensures;

            assert(order@.to_multiset().len() == order@.len());
            assert(universe().to_multiset().len() == universe().len());
        }
        Ranking { order }
    }

    /// How many developers this ranking orders.
    pub fn len(&self) -> (n: usize)
        ensures
            n == self@.len(),
    {
        self.order.len()
    }

    /// The ranked developers, best first.
    pub fn items(&self) -> (r: Vec<Developer>)
        ensures
            r@ == self@,
    {
        let r = self.order.clone();
        proof {
            assert(r@ =~= self.order@);
        }
        r
    }

    /// The developer ranked best, absent only in an empty ranking.
    pub fn get_best(&self) -> (r: Option<&Developer>)
        ensures
            match r {
                Some(d) => self@.len() > 0 && *d == self@[0],
                None => self@.len() == 0,
            },
    {
        self.order.first()
    }

    /// The developer ranked worst, absent only in an empty ranking.
    pub fn get_worst(&self) -> (r: Option<&Developer>)
        ensures
            match r {
                Some(d) => self@.len() > 0 && *d == self@[self@.len() - 1],
                None => self@.len() == 0,
            },
    {
        self.order.last()
    }

    /// The index of `dev` in this ranking.
    fn position_of(&self, dev: &Developer) -> (i: usize)
        requires
            self@.contains(*dev),
        ensures
            i < self@.len(),
            self@[i as int] == *dev,
            self@.no_duplicates() ==> i == position_in(self@, *dev),
    {
        let n = self.order.len();
        let mut i: usize = 0;
        while i < n
            invariant
                n == self@.len(),
                i <= n,
                self@.contains(*dev),
                forall|k: int| 0 <= k < i ==> self@[k] != *dev,
            decreases n - i,
        {
            if self.order[i] == *dev {
                proof {
                    if self@.no_duplicates() {
                        lemma_position_unique(self@, *dev, i as int);
                    }
                }
                return i;
            }
            i = i + 1;
        }
        proof {
            let w = choose|w: int| 0 <= w < self@.len() && self@[w] == *dev;
            assert(false);
        }
        0
    }

    /// The signed distance from `dev` down to `other_dev`: the position of
    /// `other_dev` minus the position of `dev`.
    pub fn get_relative_rank(&self, dev: &Developer, other_dev: &Developer) -> (r: isize)
        requires
            is_permutation_of_universe(self@),
        ensures
            r == relative_rank(self@, *dev, *other_dev),
            -5 < r < 5,
    {
        proof {
            lemma_permutation_facts(self@);
        }
        let rank_dev = self.position_of(dev);
        let rank_other_dev = self.position_of(other_dev);
        (rank_other_dev as isize) - (rank_dev as isize)
    }

    /// A new ranking produced from this one by `count` random
    /// transpositions: each picks two positions uniformly at random, with
    /// replacement, and swaps them (a no-op when the two coincide). The
    /// result holds exactly the items of this ranking, and zero
    /// transpositions leave the order untouched.
    pub fn shuffle(&self, count: u64) -> (r: Ranking)
        requires
            count == 0 || self@.len() > 0,
        ensures
            r@.len() == self@.len(),
            r@.to_multiset() == self@.to_multiset(),
            count == 0 ==> r@ == self@,
    {
        let mut order = self.order.clone();
        proof {
            assert(order@ =~= self.order@);
        }
        let mut done: u64 = 0;
        while done < count
            invariant
                done <= count,
                order@.to_multiset() == self@.to_multiset(),
                count == 0 ==> order@ == self@,
                count > 0 ==> self@.len() > 0,
            decreases count - done,
        {
            proof {
                broadcast use vstd::seq_lib::group_to_multiset_ensures;

                assert(order@.to_multiset().len() == order@.len());
                assert(self@.to_multiset().len() == self@.len());
                assert(order@.len() == self@.len());
            }
            let p1 = random_index(order.len());
            let p2 = random_index(order.len());
            let ghost before = order@;
            let item1 = order[p1];
            let item2 = order[p2];
            order[p1] = item2;
            order[p2] = item1;
            proof {
                lemma_swap_preserves_multiset(before, p1 as int, p2 as int);
                assert(order@ =~= before.update(p1 as int, before[p2 as int]).update(
                    p2 as int,
                    before[p1 as int],
                ));
            }
            done = done + 1;
        }
        proof {
            broadcast use vstd::seq_lib::group_to_multiset_ensures;

            assert(order@.to_multiset().len() == order@.len());
            assert(self@.to_multiset().len() == self@.len());
        }
        Ranking { order }
    }

    /// The display string: labels from best to worst joined by arrows, the
    /// ends marked, a lone developer shown bare, and an empty ranking shown
    /// as `Empty ranking`.
    pub fn to_display_string(&self) -> (r: String)
        ensures
            r@ == spec_display(self@),
    {
        let n = self.order.len();
        if n == 0 {
            return String::from_str("Empty ranking");
        }
        if n == 1 {
            return String::from_str(developer_name(&self.order[0]));
        }
        let mut r = String::new();
        r.append(developer_name(&self.order[0]));
        r.append(" (best) -> ");
        let mut i: usize = 1;
        while i < n - 1
            invariant
                n == self@.len(),
                2 <= n,
                1 <= i <= n - 1,
                r@ == spec_name(self@[0]) + " (best) -> "@ + spec_middle(self@, 1, i as int),
            decreases n - 1 - i,
        {
            r.append(developer_name(&self.order[i]));
            r.append(" -> ");
            proof {
                lemma_middle_snoc(self@, 1, i as int);
                assert(r@ =~= spec_name(self@[0]) + " (best) -> "@ + spec_middle(
                    self@,
                    1,
                    i + 1,
                ));
            }
            i = i + 1;
        }
        r.append(developer_name(&self.order[n - 1]));
        r.append(" (worst)");
        proof {
            assert(r@ =~= spec_display(self@));
        }
        r
    }
}

/// Appending one more developer to the middle of a display string extends
/// the arrow chain by its label and one arrow.
proof fn lemma_middle_snoc(s: Seq<Developer>, from: int, to: int)
    requires
        0 <= from <= to < s.len(),
    ensures
        spec_middle(s, from, to + 1) == spec_middle(s, from, to) + spec_name(s[to]) + " -> "@,
    decreases to - from,
{
    if from >= to {
        assert(spec_middle(s, from + 1, to + 1) =~= Seq::<char>::empty());
        assert(spec_middle(s, from, to) =~= Seq::<char>::empty());
        assert(spec_middle(s, from, to + 1) == spec_name(s[from]) + " -> "@ + spec_middle(
            s,
            from + 1,
            to + 1,
        ));
        assert(spec_middle(s, from, to + 1) =~= spec_middle(s, from, to) + spec_name(s[to])
            + " -> "@);
    } else {
        lemma_middle_snoc(s, from + 1, to);
        assert(spec_middle(s, from, to + 1) == spec_name(s[from]) + " -> "@ + spec_middle(
            s,
            from + 1,
            to + 1,
        ));
        assert(spec_middle(s, from, to) == spec_name(s[from]) + " -> "@ + spec_middle(
            s,
            from + 1,
            to,
        ));
        assert(spec_middle(s, from, to + 1) =~= spec_middle(s, from, to) + spec_name(s[to])
            + " -> "@);
    }
}

/// The display label of a developer.
pub fn developer_name(d: &Developer) -> (r: &'static str)
    ensures
        r@ == spec_name(*d),
{
    match d {
        Developer::Evan => "Evan",
        Developer::Jessie => "Jessie",
        Developer::John => "John",
        Developer::Matt => "Matt",
        Developer::Sarah => "Sarah",
    }
}

} // verus!

//! Heading anchors: slugs that are unique within one render pass.

use vstd::prelude::*;
use vstd::set_lib::lemma_len_subset;
use vstd::string::StringExecFns;
use crate::decimal::{decimal_chars, lemma_decimal_chars_injective, push_decimal};
use crate::text::{
    char_replaced,
    lowercased,
    regex_replace_all,
    regex_replaced,
    replace_char,
    to_lowercase,
};

verus! {

/// The regular expression for the characters that a slug drops: all but
/// letters, marks, numbers, connector punctuation, the space and the hyphen.
pub open spec fn rejected_chars() -> Seq<char> {
    "[^\\p{L}\\p{M}\\p{N}\\p{Pc} -]"@
}

/// `text` without its rejected characters. Were the expression for them not
/// to compile, the text would stay as it is.
pub open spec fn without_rejected(text: Seq<char>) -> Seq<char> {
    match regex_replaced(rejected_chars(), text, ""@) {
        Some(kept) => kept,
        None => text,
    }
}

/// The slug of a heading before it is made unique: lower case, rejected
/// characters dropped, each space turned into a hyphen.
pub open spec fn slug_base(header: Seq<char>) -> Seq<char> {
    char_replaced(without_rejected(lowercased(header)), ' ', "-"@)
}

/// The `k`-th candidate for a slug: the slug itself, then the slug with
/// `-1`, `-2`, ... behind it.
pub open spec fn candidate(base: Seq<char>, k: nat) -> Seq<char> {
    if k == 0 {
        base
    } else {
        base + seq!['-'] + decimal_chars(k)
    }
}

/// Candidate `k` is free and every candidate before it is taken.
pub open spec fn is_first_free(issued: Set<Seq<char>>, base: Seq<char>, k: nat) -> bool {
    &&& !issued.contains(candidate(base, k))
    &&& forall|j: nat| j < k ==> issued.contains(#[trigger] candidate(base, j))
}

/// The number of the first candidate that is not among `issued`.
pub open spec fn first_free(issued: Set<Seq<char>>, base: Seq<char>) -> nat {
    choose|k: nat| is_first_free(issued, base, k)
}

/// The anchor that a slug gets when `issued` are the anchors given out
/// before: the first of its candidates that is not among them.
pub open spec fn unique_anchor(issued: Set<Seq<char>>, base: Seq<char>) -> Seq<char> {
    candidate(base, first_free(issued, base))
}

/// The anchors that a run of slugs gets, one after the other, where
/// `issued` are the anchors given out before the run.
pub open spec fn anchors(issued: Set<Seq<char>>, bases: Seq<Seq<char>>) -> Seq<Seq<char>>
    decreases bases.len(),
{
    if bases.len() == 0 {
        Seq::<Seq<char>>::empty()
    } else {
        let before = anchors(issued, bases.drop_last());
        before.push(unique_anchor(issued.union(before.to_set()), bases.last()))
    }
}

/// Different candidate numbers give different candidates.
pub proof fn lemma_candidate_injective(base: Seq<char>, j: nat, k: nat)
    requires
        candidate(base, j) == candidate(base, k),
    ensures
        j == k,
{
    let prefix = base + seq!['-'];
    if j == 0 && k != 0 {
        assert(candidate(base, k).len() == base.len() + 1 + decimal_chars(k).len());
    } else if j != 0 && k == 0 {
        assert(candidate(base, j).len() == base.len() + 1 + decimal_chars(j).len());
    } else if j != 0 && k != 0 {
        let cj = prefix + decimal_chars(j);
        let ck = prefix + decimal_chars(k);
        assert(cj.subrange(prefix.len() as int, cj.len() as int) =~= decimal_chars(j));
        assert(ck.subrange(prefix.len() as int, ck.len() as int) =~= decimal_chars(k));
        lemma_decimal_chars_injective(j, k);
    }
}

/// The first `n` candidates of a slug, as a set.
spec fn candidates_below(base: Seq<char>, n: nat) -> Set<Seq<char>>
    decreases n,
{
    if n == 0 {
        Set::<Seq<char>>::empty()
    } else {
        candidates_below(base, (n - 1) as nat).insert(candidate(base, (n - 1) as nat))
    }
}

proof fn lemma_candidates_below(base: Seq<char>, n: nat)
    ensures
        candidates_below(base, n).finite(),
        candidates_below(base, n).len() == n,
        forall|a: Seq<char>|
            candidates_below(base, n).contains(a) <==> exists|j: nat|
                j < n && a == #[trigger] candidate(base, j),
    decreases n,
{
    if n > 0 {
        let m = (n - 1) as nat;
        lemma_candidates_below(base, m);
        let below = candidates_below(base, m);
        if below.contains(candidate(base, m)) {
            let j = choose|j: nat| j < m && candidate(base, m) == #[trigger] candidate(base, j);
            lemma_candidate_injective(base, m, j);
        }
        assert forall|a: Seq<char>|
            candidates_below(base, n).contains(a) <==> exists|j: nat|
                j < n && a == #[trigger] candidate(base, j) by {
            if candidates_below(base, n).contains(a) {
                if a == candidate(base, m) {
                    assert(m < n && a == candidate(base, m));
                } else {
                    let j = choose|j: nat| j < m && a == #[trigger] candidate(base, j);
                    assert(j < n && a == candidate(base, j));
                }
            }
            if exists|j: nat| j < n && a == #[trigger] candidate(base, j) {
                let j = choose|j: nat| j < n && a == #[trigger] candidate(base, j);
                if j < m {
                    assert(below.contains(a));
                }
            }
        }
    }
}

/// No more candidates of one slug are taken than anchors were given out.
pub proof fn lemma_taken_bounded(issued: Set<Seq<char>>, base: Seq<char>, n: nat)
    requires
        issued.finite(),
        forall|j: nat| j < n ==> issued.contains(#[trigger] candidate(base, j)),
    ensures
        n <= issued.len(),
{
    lemma_candidates_below(base, n);
    assert(candidates_below(base, n).subset_of(issued)) by {
        assert forall|a: Seq<char>| candidates_below(base, n).contains(a) implies issued.contains(
            a,
        ) by {
            let j = choose|j: nat| j < n && a == #[trigger] candidate(base, j);
        }
    }
    lemma_len_subset(candidates_below(base, n), issued);
}

proof fn lemma_search_free(issued: Set<Seq<char>>, base: Seq<char>, k: nat)
    requires
        issued.finite(),
        forall|j: nat| j < k ==> issued.contains(#[trigger] candidate(base, j)),
    ensures
        exists|f: nat| is_first_free(issued, base, f),
    decreases issued.len() - k,
{
    lemma_taken_bounded(issued, base, k);
    if issued.contains(candidate(base, k)) {
        lemma_taken_bounded(issued, base, k + 1);
        lemma_search_free(issued, base, k + 1);
    } else {
        assert(is_first_free(issued, base, k));
    }
}

/// Among finitely many anchors every slug has a first free candidate, and
/// only one: `first_free` is its number.
pub proof fn lemma_first_free(issued: Set<Seq<char>>, base: Seq<char>)
    requires
        issued.finite(),
    ensures
        is_first_free(issued, base, first_free(issued, base)),
        forall|k: nat| is_first_free(issued, base, k) ==> k == first_free(issued, base),
{
    lemma_search_free(issued, base, 0);
    let f = first_free(issued, base);
    assert forall|k: nat| is_first_free(issued, base, k) implies k == f by {
        if k < f {
            assert(issued.contains(candidate(base, k)));
        } else if f < k {
            assert(issued.contains(candidate(base, f)));
        }
    }
}

/// The anchors given out in one pass are pairwise distinct, and each
/// differs from every anchor given out before the pass.
pub proof fn lemma_anchors_distinct(issued: Set<Seq<char>>, bases: Seq<Seq<char>>)
    requires
        issued.finite(),
    ensures
        anchors(issued, bases).len() == bases.len(),
        forall|i: int| 0 <= i < bases.len() ==> !issued.contains(#[trigger] anchors(issued, bases)[i]),
        forall|i: int, j: int|
            0 <= i < j < bases.len() ==> #[trigger] anchors(issued, bases)[i] != #[trigger] anchors(
                issued,
                bases,
            )[j],
    decreases bases.len(),
{
    if bases.len() > 0 {
        let before = anchors(issued, bases.drop_last());
        lemma_anchors_distinct(issued, bases.drop_last());
        let taken = issued.union(before.to_set());
        vstd::seq_lib::seq_to_set_is_finite(before);
        vstd::set::axiom_set_union_finite(issued, before.to_set());
        lemma_first_free(taken, bases.last());
        let last = unique_anchor(taken, bases.last());
        assert(!taken.contains(last));
        assert forall|i: int| 0 <= i < bases.len() - 1 implies before[i] != last by {
            assert(before.to_set().contains(before[i]));
        }
    }
}

/// The anchors given out so far in a render pass.
#[derive(Debug)]
pub struct Anchorizer(Vec<String>);

impl View for Anchorizer {
    type V = Set<Seq<char>>;

    /// The set of anchors given out.
    closed spec fn view(&self) -> Set<Seq<char>> {
        self.0@.map_values(|s: String| s@).to_set()
    }
}

impl Default for Anchorizer {
    fn default() -> (a: Self)
        ensures
            a@ == Set::<Seq<char>>::empty(),
    {
        Anchorizer::new()
    }
}

impl Anchorizer {
    /// Construct a new anchorizer.
    pub fn new() -> (a: Self)
        ensures
            a@ == Set::<Seq<char>>::empty(),
    {
        let a = Anchorizer(Vec::new());
        assert(a@ =~= Set::<Seq<char>>::empty());
        a
    }

    /// The anchors given out are finitely many.
    pub proof fn lemma_finite(&self)
        ensures
            self@.finite(),
    {
        vstd::seq_lib::seq_to_set_is_finite(self.0@.map_values(|s: String| s@));
    }

    proof fn lemma_len(&self)
        ensures
            self@.finite(),
            self@.len() <= self.0@.len(),
    {
        self.lemma_finite();
        self.0@.map_values(|s: String| s@).lemma_cardinality_of_set();
    }

    /// Whether `anchor` has been given out.
    pub fn contains(&self, anchor: &String) -> (r: bool)
        ensures
            r == self@.contains(anchor@),
    {
        let ghost texts = self.0@.map_values(|s: String| s@);
        let mut i: usize = 0;
        while i < self.0.len()
            invariant
                i <= self.0@.len(),
                texts == self.0@.map_values(|s: String| s@),
                forall|k: int| 0 <= k < i ==> texts[k] != anchor@,
            decreases self.0@.len() - i,
        {
            if self.0[i] == *anchor {
                assert(texts[i as int] == anchor@);
                return true;
            }
            i += 1;
        }
        false
    }

    /// Gives out the anchor for a slug: the slug itself if it is free, else
    /// the first of `slug-1`, `slug-2`, ... that is. The anchor is recorded
    /// as given out.
    pub fn unique(&mut self, base: String) -> (anchor: String)
        ensures
            is_first_free(old(self)@, base@, first_free(old(self)@, base@)),
            anchor@ == unique_anchor(old(self)@, base@),
            !old(self)@.contains(anchor@),
            final(self)@ == old(self)@.insert(anchor@),
    {
        let mut anchor = base.clone();
        let mut uniq: u64 = 0;
        let given: usize = self.0.len();
        proof {
            self.lemma_len();
        }
        while self.contains(&anchor)
            invariant
                anchor@ == candidate(base@, uniq as nat),
                forall|j: nat| j < uniq ==> self@.contains(#[trigger] candidate(base@, j)),
                self@.finite(),
                uniq <= self@.len() <= given,
            decreases self@.len() - uniq,
        {
            proof {
                lemma_taken_bounded(self@, base@, (uniq + 1) as nat);
            }
            uniq += 1;
            anchor = base.clone();
            anchor.append("-");
            push_decimal(&mut anchor, uniq);
            proof {
                reveal_strlit("-");
                assert("-"@ =~= seq!['-']);
            }
        }
        proof {
            assert(is_first_free(self@, base@, uniq as nat));
            lemma_first_free(self@, base@);
        }
        let ghost before = self.0@.map_values(|s: String| s@);
        self.0.push(anchor.clone());
        proof {
            let after = self.0@.map_values(|s: String| s@);
            assert(after =~= before.push(anchor@));
            assert forall|a: Seq<char>| after.to_set().contains(a) <==> before.to_set().insert(
                anchor@,
            ).contains(a) by {
                if after.contains(a) {
                    let i = choose|i: int| 0 <= i < after.len() && after[i] == a;
                    if i < before.len() {
                        assert(before[i] == a);
                    }
                }
                if before.contains(a) {
                    let i = choose|i: int| 0 <= i < before.len() && before[i] == a;
                    assert(after[i] == a);
                }
                if a == anchor@ {
                    assert(after[after.len() - 1] == a);
                }
            }
            assert(after.to_set() =~= before.to_set().insert(anchor@));
        }
        anchor
    }

    /// Returns a String that has been converted into an anchor: the header
    /// in lower case, without its rejected characters, spaces turned into
    /// hyphens and, if needed, a suffix added to make the anchor unique.
    pub fn anchorize(&mut self, header: String) -> (anchor: String)
        ensures
            anchor@ == unique_anchor(old(self)@, slug_base(header@)),
            !old(self)@.contains(anchor@),
            final(self)@ == old(self)@.insert(anchor@),
    {
        let lower = to_lowercase(header.as_str());
        let kept = match regex_replace_all("[^\\p{L}\\p{M}\\p{N}\\p{Pc} -]", lower.as_str(), "") {
            Ok(kept) => kept,
            Err(_) => lower,
        };
        let base = replace_char(kept.as_str(), ' ', "-");
        self.unique(base)
    }
}

} // verus!

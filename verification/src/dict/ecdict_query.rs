//! Queries on the English dictionary: an exact entry, else the entry of the
//! lemma; and suggestions for words that it lacks.

use crate::dict::{CardModel, WordCard};
use crate::text;
use vstd::prelude::*;

verus! {

// Edit distance

pub open spec fn min(a: nat, b: nat) -> nat {
    if a <= b {
        a
    } else {
        b
    }
}

/// The least number of insertions, deletions and substitutions of one character
/// that lead from `a` to `b`.
pub open spec fn distance(a: Seq<char>, b: Seq<char>) -> nat
    decreases a.len() + b.len(),
{
    if a.len() == 0 {
        b.len()
    } else if b.len() == 0 {
        a.len()
    } else {
        min(
            min(distance(a.drop_last(), b) + 1, distance(a, b.drop_last()) + 1),
            distance(a.drop_last(), b.drop_last()) + (if a.last() == b.last() {
                0nat
            } else {
                1nat
            }),
        )
    }
}

/// A distance is at most the length of the longer text and at least the
/// difference in length.
pub proof fn law_distance_bounds(a: Seq<char>, b: Seq<char>)
    ensures
        distance(a, b) <= a.len() || distance(a, b) <= b.len(),
        distance(a, b) >= a.len() - b.len(),
        distance(a, b) >= b.len() - a.len(),
    decreases a.len() + b.len(),
{
    if a.len() > 0 && b.len() > 0 {
        law_distance_bounds(a.drop_last(), b);
        law_distance_bounds(a, b.drop_last());
        law_distance_bounds(a.drop_last(), b.drop_last());
    }
}

/// A distance is the same in both directions.
pub proof fn law_distance_symmetric(a: Seq<char>, b: Seq<char>)
    ensures
        distance(a, b) == distance(b, a),
    decreases a.len() + b.len(),
{
    if a.len() > 0 && b.len() > 0 {
        law_distance_symmetric(a.drop_last(), b);
        law_distance_symmetric(a, b.drop_last());
        law_distance_symmetric(a.drop_last(), b.drop_last());
    }
}

/// Only a text itself is at distance zero from it.
pub proof fn law_distance_zero(a: Seq<char>, b: Seq<char>)
    ensures
        distance(a, b) == 0 <==> a == b,
    decreases a.len() + b.len(),
{
    if a.len() > 0 && b.len() > 0 {
        law_distance_zero(a.drop_last(), b.drop_last());
        if a == b {
            assert(a.drop_last() == b.drop_last());
        }
        if distance(a, b) == 0 {
            assert(a =~= a.drop_last().push(a.last()));
            assert(b =~= b.drop_last().push(b.last()));
        }
    } else {
        if distance(a, b) == 0 {
            assert(a =~= b);
        }
    }
}

/// No way round by a third text is shorter.
pub proof fn law_distance_triangle(a: Seq<char>, b: Seq<char>, c: Seq<char>)
    ensures
        distance(a, c) <= distance(a, b) + distance(b, c),
    decreases a.len() + b.len() + c.len(),
{
    if a.len() == 0 || b.len() == 0 || c.len() == 0 {
        law_distance_bounds(a, c);
        law_distance_bounds(a, b);
        law_distance_bounds(b, c);
    } else {
        law_distance_triangle(a.drop_last(), b, c);
        law_distance_triangle(a, b, c.drop_last());
        law_distance_triangle(a, b.drop_last(), c);
        law_distance_triangle(a, b.drop_last(), c.drop_last());
        law_distance_triangle(a.drop_last(), b.drop_last(), c);
        law_distance_triangle(a.drop_last(), b.drop_last(), c.drop_last());
    }
}

proof fn lemma_common_prefix(p: Seq<char>, a: Seq<char>, b: Seq<char>)
    ensures
        distance(p + a, p + b) == distance(a, b),
    decreases a.len() + b.len(),
{
    let x = p + a;
    let y = p + b;
    if p.len() == 0 {
        assert(x =~= a && y =~= b);
    } else if a.len() == 0 && b.len() == 0 {
        assert(x =~= y);
        law_distance_zero(x, y);
        law_distance_zero(a, b);
    } else if a.len() == 0 {
        assert(y.drop_last() =~= p + b.drop_last());
        lemma_common_prefix(p, a, b.drop_last());
        law_distance_bounds(x, y);
    } else if b.len() == 0 {
        assert(x.drop_last() =~= p + a.drop_last());
        lemma_common_prefix(p, a.drop_last(), b);
        law_distance_bounds(x, y);
    } else {
        assert(x.drop_last() =~= p + a.drop_last());
        assert(y.drop_last() =~= p + b.drop_last());
        lemma_common_prefix(p, a.drop_last(), b);
        lemma_common_prefix(p, a, b.drop_last());
        lemma_common_prefix(p, a.drop_last(), b.drop_last());
    }
}

proof fn lemma_common_suffix(a: Seq<char>, b: Seq<char>, s: Seq<char>)
    ensures
        distance(a + s, b + s) == distance(a, b),
    decreases s.len(),
{
    let x = a + s;
    let y = b + s;
    if s.len() == 0 {
        assert(x =~= a && y =~= b);
    } else {
        let u = x.drop_last();
        let v = y.drop_last();
        assert(u =~= a + s.drop_last());
        assert(v =~= b + s.drop_last());
        lemma_common_suffix(a, b, s.drop_last());
        // One character more is one edit.
        law_distance_zero(u, u);
        law_distance_zero(v, v);
        law_distance_bounds(u, x);
        law_distance_bounds(y, v);
        assert(distance(u, x) <= 1);
        assert(distance(y, v) <= 1);
        law_distance_triangle(u, x, v);
        law_distance_triangle(u, y, v);
    }
}

/// What two texts have in common at their start and at their end does not
/// change their distance.
pub proof fn law_distance_without_common_ends(
    p: Seq<char>,
    a: Seq<char>,
    b: Seq<char>,
    s: Seq<char>,
)
    ensures
        distance(p + a + s, p + b + s) == distance(a, b),
{
    lemma_common_suffix(p + a, p + b, s);
    lemma_common_prefix(p, a, b);
}

fn least(a: u128, b: u128) -> (r: u128)
    ensures
        r == min(a as nat, b as nat),
{
    if a <= b {
        a
    } else {
        b
    }
}

/// The edit distance of two texts.
pub fn levenshtein(a: &str, b: &str) -> (r: usize)
    ensures
        r == distance(a@, b@),
{
    let x = text::chars_of(a);
    let y = text::chars_of(b);
    // `row[j]` is the distance of the part of `a` read so far to the first
    // `j + 1` characters of `b`.
    let mut row: Vec<u128> = Vec::new();
    let mut j: usize = 0;
    while j < y.len()
        invariant
            j <= y@.len(),
            row@.len() == j,
            forall|k: int| 0 <= k < j ==> row@[k] == distance(x@.take(0), #[trigger] y@.take(k + 1)),
        decreases y@.len() - j,
    {
        row.push(j as u128 + 1);
        assert(y@.take(j + 1).len() == j + 1);
        j += 1;
    }
    let mut i: usize = 0;
    while i < x.len()
        invariant
            i <= x@.len(),
            row@.len() == y@.len(),
            forall|k: int|
                0 <= k < y@.len() ==> row@[k] == distance(
                    x@.take(i as int),
                    #[trigger] y@.take(k + 1),
                ),
        decreases x@.len() - i,
    {
        let ghost up = x@.take(i as int);
        let ghost here = x@.take(i + 1);
        assert(here.drop_last() =~= up);
        let ghost old_row = row@;
        let mut diagonal: u128 = i as u128;
        let mut left: u128 = i as u128 + 1;
        let mut j: usize = 0;
        assert(y@.take(0) =~= Seq::<char>::empty());
        proof {
            assert(distance(up, y@.take(0)) == i) by {
                if i == 0 {
                    assert(up.len() == 0);
                }
            }
        }
        while j < y.len()
            invariant
                i < x@.len(),
                j <= y@.len(),
                row@.len() == y@.len(),
                old_row.len() == y@.len(),
                up == x@.take(i as int),
                here == x@.take(i + 1),
                here.drop_last() == up,
                diagonal == distance(up, y@.take(j as int)),
                left == distance(here, y@.take(j as int)),
                diagonal <= u64::MAX,
                left <= u64::MAX + 1,
                forall|k: int|
                    0 <= k < y@.len() ==> old_row[k] == distance(up, #[trigger] y@.take(k + 1)),
                forall|k: int|
                    0 <= k < j ==> row@[k] == distance(here, #[trigger] y@.take(k + 1)),
                forall|k: int| j <= k < y@.len() ==> #[trigger] row@[k] == old_row[k],
            decreases y@.len() - j,
        {
            let ghost t = y@.take(j + 1);
            assert(t.drop_last() =~= y@.take(j as int));
            assert(t.last() == y@[j as int]);
            assert(here.last() == x@[i as int]);
            proof {
                law_distance_bounds(up, t);
                law_distance_bounds(here, t);
            }
            let above: u128 = row[j];
            assert(above == distance(up, y@.take(j + 1)));
            let swap: u128 = if x[i] == y[j] {
                diagonal
            } else {
                diagonal + 1
            };
            let d: u128 = least(least(above + 1, left + 1), swap);
            assert(d == distance(here, t));
            row.set(j, d);
            diagonal = above;
            left = d;
            j += 1;
        }
        i += 1;
    }
    assert(x@.take(i as int) =~= x@);
    assert(y@.take(y@.len() as int) =~= y@);
    proof {
        law_distance_bounds(x@, y@);
    }
    if y.len() == 0 {
        x.len()
    } else {
        let d: u128 = row[y.len() - 1];
        assert(d == distance(x@, y@.take(y@.len() - 1 + 1)));
        d as usize
    }
}

// Suggestions

/// How many suggestions are made at most.
pub const MAX_SUGGESTIONS: usize = 5;

/// The candidates at distance `d` from `word`, in order.
pub open spec fn at_distance(
    word: Seq<char>,
    candidates: Seq<Seq<char>>,
    d: nat,
) -> Seq<Seq<char>>
    decreases candidates.len(),
{
    if candidates.len() == 0 {
        Seq::empty()
    } else {
        let before = at_distance(word, candidates.drop_last(), d);
        if distance(word, candidates.last()) == d {
            before.push(candidates.last())
        } else {
            before
        }
    }
}

/// The candidates within two edits of `word`, nearest first, otherwise in order.
pub open spec fn ranked(word: Seq<char>, candidates: Seq<Seq<char>>) -> Seq<Seq<char>> {
    at_distance(word, candidates, 0) + at_distance(word, candidates, 1) + at_distance(
        word,
        candidates,
        2,
    )
}

/// The first few of the ranked candidates.
pub open spec fn suggested(word: Seq<char>, candidates: Seq<Seq<char>>) -> Seq<Seq<char>> {
    let all = ranked(word, candidates);
    if all.len() <= MAX_SUGGESTIONS {
        all
    } else {
        all.take(MAX_SUGGESTIONS as int)
    }
}

/// How candidates for `word` start: with its first two characters.
pub open spec fn stem(word: Seq<char>) -> Seq<char> {
    if word.len() <= 2 {
        word
    } else {
        word.take(2)
    }
}

/// How candidates for `word` start: with its first two characters.
pub fn suggestion_prefix(word: &str) -> (r: String)
    ensures
        r@ == stem(word@),
{
    let v = text::chars_of(word);
    let n: usize = if v.len() < 2 {
        v.len()
    } else {
        2
    };
    let r = text::text_range(&v, 0, n);
    assert(r@ =~= stem(word@));
    r
}

fn push_at_distance(
    out: &mut Vec<String>,
    candidates: &Vec<String>,
    scores: &Vec<usize>,
    d: usize,
    Ghost(word): Ghost<Seq<char>>,
)
    requires
        scores@.len() == candidates@.len(),
        forall|k: int|
            0 <= k < candidates@.len() ==> #[trigger] scores@[k] == distance(
                word,
                candidates@[k]@,
            ),
    ensures
        final(out).deep_view() == old(out).deep_view() + at_distance(
            word,
            candidates.deep_view(),
            d as nat,
        ),
{
    let ghost start = out.deep_view();
    let ghost all = candidates.deep_view();
    let mut i: usize = 0;
    assert(start + at_distance(word, all.take(0), d as nat) =~= start);
    while i < candidates.len()
        invariant
            i <= candidates@.len(),
            scores@.len() == candidates@.len(),
            all == candidates.deep_view(),
            forall|k: int|
                0 <= k < candidates@.len() ==> #[trigger] scores@[k] == distance(
                    word,
                    candidates@[k]@,
                ),
            out.deep_view() == start + at_distance(word, all.take(i as int), d as nat),
        decreases candidates@.len() - i,
    {
        assert(all.take(i + 1).drop_last() =~= all.take(i as int));
        let ghost before = out.deep_view();
        if scores[i] == d {
            out.push(text::copy(&candidates[i]));
            assert(out.deep_view() =~= before.push(all[i as int]));
        }
        assert(out.deep_view() =~= start + at_distance(word, all.take(i + 1), d as nat));
        i += 1;
    }
    assert(all.take(i as int) =~= all);
}

/// The suggestions for `word` out of `candidates`: at most five, none further
/// than two edits, nearest first.
pub fn rank_suggestions(word: &str, candidates: &Vec<String>) -> (r: Vec<String>)
    ensures
        r.deep_view() == suggested(word@, candidates.deep_view()),
{
    let mut scores: Vec<usize> = Vec::new();
    let mut i: usize = 0;
    while i < candidates.len()
        invariant
            i <= candidates@.len(),
            scores@.len() == i,
            forall|k: int|
                0 <= k < i ==> #[trigger] scores@[k] == distance(word@, candidates@[k]@),
        decreases candidates@.len() - i,
    {
        scores.push(levenshtein(word, &candidates[i]));
        i += 1;
    }
    let mut all: Vec<String> = Vec::new();
    assert(all.deep_view() =~= Seq::<Seq<char>>::empty());
    push_at_distance(&mut all, candidates, &scores, 0, Ghost(word@));
    push_at_distance(&mut all, candidates, &scores, 1, Ghost(word@));
    push_at_distance(&mut all, candidates, &scores, 2, Ghost(word@));
    assert(all.deep_view() =~= ranked(word@, candidates.deep_view()));
    let mut r: Vec<String> = Vec::new();
    let mut k: usize = 0;
    while k < all.len() && k < MAX_SUGGESTIONS
        invariant
            k <= all@.len(),
            k <= MAX_SUGGESTIONS,
            r.deep_view() == all.deep_view().take(k as int),
        decreases all@.len() - k,
    {
        let ghost before = r.deep_view();
        r.push(text::copy(&all[k]));
        assert(r.deep_view() =~= before.push(all.deep_view()[k as int]));
        assert(all.deep_view().take(k + 1) =~= before.push(all.deep_view()[k as int]));
        k += 1;
    }
    assert(r.deep_view() =~= suggested(word@, candidates.deep_view()));
    r
}

proof fn lemma_at_distance(word: Seq<char>, candidates: Seq<Seq<char>>, d: nat)
    ensures
        forall|i: int|
            #![trigger at_distance(word, candidates, d)[i]]
            0 <= i < at_distance(word, candidates, d).len() ==> candidates.contains(
                at_distance(word, candidates, d)[i],
            ) && distance(word, at_distance(word, candidates, d)[i]) == d,
    decreases candidates.len(),
{
    if candidates.len() > 0 {
        lemma_at_distance(word, candidates.drop_last(), d);
        let before = at_distance(word, candidates.drop_last(), d);
        let all = at_distance(word, candidates, d);
        assert forall|i: int|
            #![trigger all[i]]
            0 <= i < all.len() implies candidates.contains(all[i]) && distance(word, all[i])
            == d by {
            if i < before.len() {
                assert(all[i] == before[i]);
                let k = candidates.drop_last().index_of(all[i]);
                assert(candidates[k] == all[i]);
            } else {
                assert(candidates[candidates.len() - 1] == all[i]);
            }
        }
    }
}

proof fn lemma_all_at_distance(word: Seq<char>, candidates: Seq<Seq<char>>, d: nat, c: Seq<char>)
    requires
        candidates.contains(c),
        distance(word, c) == d,
    ensures
        at_distance(word, candidates, d).contains(c),
    decreases candidates.len(),
{
    let before = at_distance(word, candidates.drop_last(), d);
    let all = at_distance(word, candidates, d);
    if candidates.last() == c {
        assert(all[all.len() - 1] == c);
    } else {
        let k = candidates.index_of(c);
        assert(candidates.drop_last()[k] == c);
        lemma_all_at_distance(word, candidates.drop_last(), d, c);
        let i = before.index_of(c);
        assert(all[i] == c);
    }
}

proof fn lemma_at_distance_once(word: Seq<char>, candidates: Seq<Seq<char>>, d: nat)
    requires
        candidates.no_duplicates(),
    ensures
        at_distance(word, candidates, d).no_duplicates(),
    decreases candidates.len(),
{
    if candidates.len() > 0 {
        let rest = candidates.drop_last();
        assert forall|i: int, j: int| 0 <= i < rest.len() && 0 <= j < rest.len() && i != j implies rest[i]
            != rest[j] by {
            assert(candidates[i] != candidates[j]);
        }
        lemma_at_distance_once(word, rest, d);
        lemma_at_distance(word, rest, d);
        let before = at_distance(word, rest, d);
        assert forall|i: int| 0 <= i < before.len() implies #[trigger] before[i]
            != candidates.last() by {
            let k = rest.index_of(before[i]);
            assert(candidates[k] == before[i]);
        }
    }
}

proof fn lemma_ranked(word: Seq<char>, candidates: Seq<Seq<char>>)
    ensures
        forall|i: int|
            0 <= i < ranked(word, candidates).len() ==> candidates.contains(
                #[trigger] ranked(word, candidates)[i],
            ) && distance(word, ranked(word, candidates)[i]) <= 2,
        forall|i: int, j: int|
            0 <= i <= j < ranked(word, candidates).len() ==> distance(
                word,
                #[trigger] ranked(word, candidates)[i],
            ) <= distance(word, #[trigger] ranked(word, candidates)[j]),
        forall|c: Seq<char>| #[trigger]
            candidates.contains(c) && distance(word, c) <= 2 ==> ranked(word, candidates).contains(c),
        candidates.no_duplicates() ==> ranked(word, candidates).no_duplicates(),
{
    lemma_at_distance(word, candidates, 0);
    lemma_at_distance(word, candidates, 1);
    lemma_at_distance(word, candidates, 2);
    let z = at_distance(word, candidates, 0);
    let o = at_distance(word, candidates, 1);
    let t = at_distance(word, candidates, 2);
    let all = ranked(word, candidates);
    assert forall|i: int| 0 <= i < all.len() implies candidates.contains(#[trigger] all[i])
        && distance(word, all[i]) == (if i < z.len() {
        0nat
    } else if i < z.len() + o.len() {
        1nat
    } else {
        2nat
    }) by {
        if i < z.len() {
            assert(all[i] == z[i]);
        } else if i < z.len() + o.len() {
            assert(all[i] == o[i - z.len()]);
        } else {
            assert(all[i] == t[i - z.len() - o.len()]);
        }
    }
    assert forall|c: Seq<char>| #[trigger] candidates.contains(c) && distance(word, c)
        <= 2 implies all.contains(c) by {
        let d = distance(word, c);
        lemma_all_at_distance(word, candidates, d, c);
        if d == 0 {
            assert(all[z.index_of(c)] == c);
        } else if d == 1 {
            assert(all[z.len() + o.index_of(c)] == c);
        } else {
            assert(all[z.len() + o.len() + t.index_of(c)] == c);
        }
    }
    if candidates.no_duplicates() {
        lemma_at_distance_once(word, candidates, 0);
        lemma_at_distance_once(word, candidates, 1);
        lemma_at_distance_once(word, candidates, 2);
        assert forall|i: int, j: int| 0 <= i < all.len() && 0 <= j < all.len() && i != j implies all[i]
            != all[j] by {
            if i < z.len() && j < z.len() {
                assert(all[i] == z[i] && all[j] == z[j]);
            } else if z.len() <= i < z.len() + o.len() && z.len() <= j < z.len() + o.len() {
                assert(all[i] == o[i - z.len()] && all[j] == o[j - z.len()]);
            } else if z.len() + o.len() <= i && z.len() + o.len() <= j {
                assert(all[i] == t[i - z.len() - o.len()] && all[j] == t[j - z.len() - o.len()]);
            } else {
                assert(distance(word, all[i]) != distance(word, all[j]));
            }
        }
    }
}

/// There are at most five suggestions; each is a candidate within two edits;
/// none is followed by a nearer one; a candidate within two edits is left out
/// only where there are five that are no further from the word; and where no
/// candidate repeats, no suggestion does.
pub proof fn law_suggestions(word: Seq<char>, candidates: Seq<Seq<char>>)
    ensures
        suggested(word, candidates).len() <= 5,
        forall|i: int|
            0 <= i < suggested(word, candidates).len() ==> candidates.contains(
                #[trigger] suggested(word, candidates)[i],
            ) && distance(word, suggested(word, candidates)[i]) <= 2,
        forall|i: int, j: int|
            0 <= i <= j < suggested(word, candidates).len() ==> distance(
                word,
                #[trigger] suggested(word, candidates)[i],
            ) <= distance(word, #[trigger] suggested(word, candidates)[j]),
        forall|c: Seq<char>, i: int|
            candidates.contains(c) && distance(word, c) <= 2 && !suggested(
                word,
                candidates,
            ).contains(c) && 0 <= i < 5 ==> suggested(word, candidates).len() == 5 && distance(
                word,
                #[trigger] suggested(word, candidates)[i],
            ) <= #[trigger] distance(word, c),
        candidates.no_duplicates() ==> suggested(word, candidates).no_duplicates(),
{
    lemma_ranked(word, candidates);
    let all = ranked(word, candidates);
    let s = suggested(word, candidates);
    assert forall|i: int| 0 <= i < s.len() implies #[trigger] s[i] == all[i] by {}
    assert forall|c: Seq<char>, i: int|
        candidates.contains(c) && distance(word, c) <= 2 && !s.contains(c) && 0 <= i
            < 5 implies s.len() == 5 && distance(word, #[trigger] s[i]) <= #[trigger] distance(
        word,
        c,
    ) by {
        let k = all.index_of(c);
        assert(all[k] == c);
        if k < s.len() {
            assert(s[k] == c);
        }
        assert(s[i] == all[i]);
    }
}

// Looking a word up

/// What a lookup asks its store next, or what it found.
#[derive(Debug, Clone, PartialEq)]
pub enum LookupStep {
    /// The entry of this word, compared without regard to ASCII case.
    Entry(String),
    /// The lemma of this inflected form.
    Lemma(String),
    /// Nothing more.
    Done(Option<WordCard>),
}

/// What a [`LookupStep`] says.
pub enum StepModel {
    Entry(Seq<char>),
    Lemma(Seq<char>),
    Done(Option<CardModel>),
}

impl DeepView for LookupStep {
    type V = StepModel;

    open spec fn deep_view(&self) -> StepModel {
        match self {
            LookupStep::Entry(w) => StepModel::Entry(w@),
            LookupStep::Lemma(w) => StepModel::Lemma(w@),
            LookupStep::Done(c) => StepModel::Done(c.deep_view()),
        }
    }
}

/// What the store answered.
#[derive(Debug, Clone, PartialEq)]
pub enum LookupReply {
    Entry(Option<WordCard>),
    Lemma(Option<String>),
}

/// What a [`LookupReply`] says.
pub enum ReplyModel {
    Entry(Option<CardModel>),
    Lemma(Option<Seq<char>>),
}

impl DeepView for LookupReply {
    type V = ReplyModel;

    open spec fn deep_view(&self) -> ReplyModel {
        match self {
            LookupReply::Entry(c) => ReplyModel::Entry(c.deep_view()),
            LookupReply::Lemma(l) => ReplyModel::Lemma(l.deep_view()),
        }
    }
}

/// Where a lookup stands: the word, and whether its lemma was asked for.
#[derive(Debug, Clone, PartialEq)]
pub struct Lookup {
    word: String,
    lemma_asked: bool,
}

/// What a [`Lookup`] says.
#[verifier::ext_equal]
pub struct LookupModel {
    pub word: Seq<char>,
    pub lemma_asked: bool,
}

/// An entry that was found ends the lookup. Where the word itself has none, the
/// lemma of its lower-case form is asked for, and then the entry of that lemma;
/// a missing lemma ends the lookup, and so does a missing entry of the lemma.
pub open spec fn lookup_next(m: LookupModel, reply: ReplyModel) -> (LookupModel, StepModel) {
    match reply {
        ReplyModel::Entry(Some(card)) => (m, StepModel::Done(Some(card))),
        ReplyModel::Entry(None) => if m.lemma_asked {
            (m, StepModel::Done(None))
        } else {
            (
                LookupModel { word: m.word, lemma_asked: true },
                StepModel::Lemma(text::lowercase(m.word)),
            )
        },
        ReplyModel::Lemma(Some(lemma)) => (m, StepModel::Entry(lemma)),
        ReplyModel::Lemma(None) => (m, StepModel::Done(None)),
    }
}

impl Lookup {
    pub closed spec fn model(&self) -> LookupModel {
        LookupModel { word: self.word@, lemma_asked: self.lemma_asked }
    }

    /// A lookup starts with the entry of the word itself.
    pub fn start(word: &str) -> (r: (Lookup, LookupStep))
        ensures
            r.0.model() == (LookupModel { word: word@, lemma_asked: false }),
            r.1.deep_view() == StepModel::Entry(word@),
    {
        (Lookup { word: text::copy(word), lemma_asked: false }, LookupStep::Entry(text::copy(word)))
    }

    /// What follows from what the store answered.
    pub fn next(&mut self, reply: LookupReply) -> (r: LookupStep)
        ensures
            (final(self).model(), r.deep_view()) == lookup_next(
                old(self).model(),
                reply.deep_view(),
            ),
    {
        match reply {
            LookupReply::Entry(Some(card)) => LookupStep::Done(Some(card)),
            LookupReply::Entry(None) => if self.lemma_asked {
                LookupStep::Done(None)
            } else {
                self.lemma_asked = true;
                LookupStep::Lemma(self.word.as_str().to_lowercase())
            },
            LookupReply::Lemma(Some(lemma)) => LookupStep::Entry(lemma),
            LookupReply::Lemma(None) => LookupStep::Done(None),
        }
    }
}

/// What a store with the given entries and lemmas answers.
pub open spec fn store_reply(
    step: StepModel,
    entries: spec_fn(Seq<char>) -> Option<CardModel>,
    lemmas: spec_fn(Seq<char>) -> Option<Seq<char>>,
) -> ReplyModel {
    match step {
        StepModel::Lemma(w) => ReplyModel::Lemma(lemmas(w)),
        StepModel::Entry(w) => ReplyModel::Entry(entries(w)),
        StepModel::Done(c) => ReplyModel::Entry(c),
    }
}

/// The step that a lookup reaches after `n` answers of a store, or earlier
/// where it ends earlier.
pub open spec fn lookup_run(
    m: LookupModel,
    step: StepModel,
    entries: spec_fn(Seq<char>) -> Option<CardModel>,
    lemmas: spec_fn(Seq<char>) -> Option<Seq<char>>,
    n: nat,
) -> StepModel
    decreases n,
{
    if n == 0 || step is Done {
        step
    } else {
        let (m2, s2) = lookup_next(m, store_reply(step, entries, lemmas));
        lookup_run(m2, s2, entries, lemmas, (n - 1) as nat)
    }
}

/// A lookup is over after at most three answers. It has then found the entry of
/// the word, else the entry of the lemma of its lower-case form.
pub proof fn law_lookup_falls_back_to_lemma(
    word: Seq<char>,
    entries: spec_fn(Seq<char>) -> Option<CardModel>,
    lemmas: spec_fn(Seq<char>) -> Option<Seq<char>>,
)
    ensures
        lookup_run(
            LookupModel { word, lemma_asked: false },
            StepModel::Entry(word),
            entries,
            lemmas,
            3,
        ) == StepModel::Done(
            match entries(word) {
                Some(card) => Some(card),
                None => match lemmas(text::lowercase(word)) {
                    Some(lemma) => entries(lemma),
                    None => None,
                },
            },
        ),
{
    reveal_with_fuel(lookup_run, 4);
}

/// Candidates for suggestions begin with the first two characters of the word,
/// or with all of it where it is shorter.
pub proof fn law_stem(word: Seq<char>)
    ensures
        word.len() >= 2 ==> stem(word) == seq![word[0], word[1]],
        word.len() < 2 ==> stem(word) == word,
{
    if word.len() >= 2 {
        assert(stem(word) =~= seq![word[0], word[1]]);
    }
}

/// One character more, less or replaced is one edit, wherever it stands, and two
/// neighbours that change places are two.
pub proof fn law_edits(p: Seq<char>, c: char, d: char, s: Seq<char>)
    requires
        c != d,
    ensures
        distance(p + s, p + seq![c] + s) == 1,
        distance(p + seq![c] + s, p + s) == 1,
        distance(p + seq![c] + s, p + seq![d] + s) == 1,
        distance(p + seq![c, d] + s, p + seq![d, c] + s) == 2,
{
    let none = Seq::<char>::empty();
    assert(p + none + s =~= p + s);
    law_distance_without_common_ends(p, none, seq![c], s);
    law_distance_without_common_ends(p, seq![c], none, s);
    law_distance_without_common_ends(p, seq![c], seq![d], s);
    law_distance_without_common_ends(p, seq![c, d], seq![d, c], s);
    lemma_replaced(c, d);
    lemma_swapped(c, d);
}

proof fn lemma_replaced(c: char, d: char)
    requires
        c != d,
    ensures
        distance(seq![c], seq![d]) == 1,
{
    let none = Seq::<char>::empty();
    assert(seq![c].drop_last() =~= none);
    assert(seq![d].drop_last() =~= none);
    assert(distance(none, none) == 0);
    assert(distance(none, seq![d]) == 1);
    assert(distance(seq![c], none) == 1);
}

proof fn lemma_swapped(c: char, d: char)
    requires
        c != d,
    ensures
        distance(seq![c, d], seq![d, c]) == 2,
{
    let none = Seq::<char>::empty();
    assert(seq![c, d].drop_last() =~= seq![c]);
    assert(seq![d, c].drop_last() =~= seq![d]);
    lemma_replaced(c, d);
    law_distance_without_common_ends(none, none, seq![d], seq![c]);
    assert(none + none + seq![c] =~= seq![c]);
    assert(none + seq![d] + seq![c] =~= seq![d, c]);
    law_distance_without_common_ends(none, seq![c], none, seq![d]);
    assert(none + seq![c] + seq![d] =~= seq![c, d]);
    assert(none + none + seq![d] =~= seq![d]);
    assert(distance(none, seq![d]) == 1);
    assert(distance(seq![c], none) == 1);
}

/// Of two candidates the nearer one is suggested first; of two that are equally
/// near, the one that came first; one that is more than two edits away is not
/// suggested. A further candidate at two edits comes last, and one further away
/// changes nothing.
pub proof fn law_order_of_suggestions(
    word: Seq<char>,
    a: Seq<char>,
    b: Seq<char>,
    l: Seq<Seq<char>>,
)
    ensures
        distance(word, a) <= distance(word, b) <= 2 ==> suggested(word, seq![a, b]) == seq![a, b],
        distance(word, b) < distance(word, a) <= 2 ==> suggested(word, seq![a, b]) == seq![b, a],
        distance(word, a) <= 2 < distance(word, b) ==> suggested(word, seq![a, b]) == seq![a],
        distance(word, b) > 2 ==> suggested(word, l.push(b)) == suggested(word, l),
        distance(word, b) == 2 && suggested(word, l).len() < 5 ==> suggested(word, l.push(b))
            == suggested(word, l).push(b),
{
    lemma_one_more(word, l, b);
    lemma_one_more(word, seq![a], b);
    lemma_one_more(word, Seq::empty(), a);
    assert(seq![a].push(b) =~= seq![a, b]);
    assert(Seq::empty().push(a) =~= seq![a]);
    let none = Seq::<Seq<char>>::empty();
    assert(ranked(word, none) =~= none);
    if distance(word, a) <= 2 {
        assert(ranked(word, seq![a]) =~= seq![a]);
    }
    if distance(word, a) <= distance(word, b) <= 2 {
        assert(ranked(word, seq![a, b]) =~= seq![a, b]);
    }
    if distance(word, b) < distance(word, a) <= 2 {
        assert(ranked(word, seq![a, b]) =~= seq![b, a]);
    }
}

proof fn lemma_one_more(word: Seq<char>, l: Seq<Seq<char>>, b: Seq<char>)
    ensures
        ({
            let d = distance(word, b);
            let at = |k: nat| if d == k { seq![b] } else { Seq::<Seq<char>>::empty() };
            &&& ranked(word, l.push(b)) == at_distance(word, l, 0) + at(0) + at_distance(word, l, 1)
                + at(1) + at_distance(word, l, 2) + at(2)
            &&& d == 2 ==> ranked(word, l.push(b)) == ranked(word, l).push(b)
            &&& d > 2 ==> ranked(word, l.push(b)) == ranked(word, l)
        }),
{
    assert(l.push(b).drop_last() =~= l);
    let d = distance(word, b);
    let at = |k: nat| if d == k { seq![b] } else { Seq::<Seq<char>>::empty() };
    assert(ranked(word, l.push(b)) =~= at_distance(word, l, 0) + at(0) + at_distance(word, l, 1)
        + at(1) + at_distance(word, l, 2) + at(2));
    if d == 2 {
        assert(ranked(word, l.push(b)) =~= ranked(word, l).push(b));
    }
}

} // verus!

//! Literal and case-insensitive line search.
use vstd::prelude::*;

use crate::text::{contains, contains_str, lines, lines_of, views_of};

verus! {

/// The lowercase form of a text, as the standard library's whole-string
/// case mapping gives it.
pub uninterp spec fn lower_of(s: Seq<char>) -> Seq<char>;

/// Relies on `str::to_lowercase`: the result is the lowercase mapping of the
/// characters of `s`, and the empty string maps to the empty string.
#[verifier::external_body]
fn lowercase(s: &str) -> (r: String)
    ensures
        r@ == lower_of(s@),
        s@.len() == 0 ==> r@.len() == 0,
{
    s.to_lowercase()
}

/// Holds of a line that contains `q`.
pub open spec fn holds_text(q: Seq<char>) -> spec_fn(Seq<char>) -> bool {
    |l: Seq<char>| contains(l, q)
}

/// Holds of a line whose lowercase form contains `lq`.
pub open spec fn holds_folded_text(lq: Seq<char>) -> spec_fn(Seq<char>) -> bool {
    |l: Seq<char>| contains(lower_of(l), lq)
}

/// The lines among `ls` that contain `q`.
pub open spec fn keep_containing(ls: Seq<Seq<char>>, q: Seq<char>) -> Seq<Seq<char>> {
    ls.filter(holds_text(q))
}

/// The lines among `ls` whose lowercase form contains `lq`.
pub open spec fn keep_folded_containing(ls: Seq<Seq<char>>, lq: Seq<char>) -> Seq<Seq<char>> {
    ls.filter(holds_folded_text(lq))
}

/// What literal search returns: the lines of `c` that contain `q`, in order.
pub open spec fn literal_matches(q: Seq<char>, c: Seq<char>) -> Seq<Seq<char>> {
    keep_containing(lines_of(c), q)
}

/// What case-insensitive search returns: the lines of `c` whose lowercase
/// form contains the lowercase form of `q`, in order.
pub open spec fn folded_matches(q: Seq<char>, c: Seq<char>) -> Seq<Seq<char>> {
    keep_folded_containing(lines_of(c), lower_of(q))
}

/// The empty text occurs in every text.
pub proof fn lemma_contains_empty(hay: Seq<char>)
    ensures
        contains(hay, Seq::<char>::empty()),
{
    let e = Seq::<char>::empty();
    let z: int = 0;
    assert(hay.subrange(z, z + e.len()) =~= e);
}

/// Filtering with a predicate that holds of every element keeps the sequence.
proof fn lemma_filter_keeps_all(s: Seq<Seq<char>>, pred: spec_fn(Seq<char>) -> bool)
    requires
        forall|x: Seq<char>| #[trigger] pred(x),
    ensures
        s.filter(pred) == s,
    decreases s.len(),
{
    reveal(Seq::filter);
    if s.len() > 0 {
        lemma_filter_keeps_all(s.drop_last(), pred);
        assert(s.drop_last().push(s.last()) =~= s);
    }
}

/// An empty query keeps every line of the content, in order.
pub proof fn lemma_empty_query_keeps_every_line(c: Seq<char>)
    ensures
        literal_matches(Seq::empty(), c) == lines_of(c),
{
    let pred = holds_text(Seq::<char>::empty());
    assert forall|x: Seq<char>| #[trigger] pred(x) by {
        lemma_contains_empty(x);
    }
    lemma_filter_keeps_all(lines_of(c), pred);
}

/// The lines of `contents` that contain `query`, case-sensitively, in the
/// order in which they stand; an empty query keeps every line.
pub fn search<'a>(query: &str, contents: &'a str) -> (r: Vec<&'a str>)
    ensures
        views_of(r@) == literal_matches(query@, contents@),
        query@.len() == 0 ==> views_of(r@) == lines_of(contents@),
{
    let ls = lines(contents);
    let mut r: Vec<&'a str> = Vec::new();
    let mut i: usize = 0;
    while i < ls.len()
        invariant
            i <= ls@.len(),
            views_of(ls@) == lines_of(contents@),
            views_of(r@) == keep_containing(views_of(ls@).take(i as int), query@),
        decreases ls@.len() - i,
    {
        let l = ls[i];
        let ghost before = views_of(ls@).take(i as int);
        assert(views_of(ls@).take(i + 1) =~= before.push(l@));
        proof {
            before.lemma_filter_push(l@, holds_text(query@));
        }
        assert(keep_containing(before.push(l@), query@) == if contains(l@, query@) {
            keep_containing(before, query@).push(l@)
        } else {
            keep_containing(before, query@)
        });
        if contains_str(l, query) {
            assert(views_of(r@.push(l)) =~= views_of(r@).push(l@));
            r.push(l);
        }
        i = i + 1;
    }
    assert(views_of(ls@).take(i as int) =~= views_of(ls@));
    proof {
        if query@.len() == 0 {
            assert(query@ =~= Seq::<char>::empty());
            lemma_empty_query_keeps_every_line(contents@);
        }
    }
    r
}

/// The lines of `contents` that contain `query` when both are lowercased, in
/// the order in which they stand and with their original casing; an empty
/// query keeps every line.
pub fn search_case_insensitive<'a>(query: &str, contents: &'a str) -> (r: Vec<&'a str>)
    ensures
        views_of(r@) == folded_matches(query@, contents@),
        query@.len() == 0 ==> views_of(r@) == lines_of(contents@),
{
    let lq = lowercase(query);
    let ls = lines(contents);
    let mut r: Vec<&'a str> = Vec::new();
    let mut i: usize = 0;
    while i < ls.len()
        invariant
            i <= ls@.len(),
            lq@ == lower_of(query@),
            views_of(ls@) == lines_of(contents@),
            views_of(r@) == keep_folded_containing(views_of(ls@).take(i as int), lq@),
        decreases ls@.len() - i,
    {
        let l = ls[i];
        let ghost before = views_of(ls@).take(i as int);
        assert(views_of(ls@).take(i + 1) =~= before.push(l@));
        proof {
            before.lemma_filter_push(l@, holds_folded_text(lq@));
        }
        assert(keep_folded_containing(before.push(l@), lq@) == if contains(lower_of(l@), lq@) {
            keep_folded_containing(before, lq@).push(l@)
        } else {
            keep_folded_containing(before, lq@)
        });
        let ll = lowercase(l);
        if contains_str(ll.as_str(), lq.as_str()) {
            assert(views_of(r@.push(l)) =~= views_of(r@).push(l@));
            r.push(l);
        }
        i = i + 1;
    }
    assert(views_of(ls@).take(i as int) =~= views_of(ls@));
    proof {
        if query@.len() == 0 {
            assert(lq@ =~= Seq::<char>::empty());
            let pred = holds_folded_text(lq@);
            assert forall|x: Seq<char>| #[trigger] pred(x) by {
                lemma_contains_empty(lower_of(x));
            }
            lemma_filter_keeps_all(lines_of(contents@), pred);
        }
    }
    r
}

} // verus!

//! Lines of a text and substring containment, specified on sequences of
//! characters; lines are cut out of the text by byte offsets.
use vstd::prelude::*;
use vstd::std_specs::iter::IteratorSpec;
use vstd::utf8::{
    char_is_scalar, encode_scalar, encode_utf8, encode_utf8_decode_utf8, encode_utf8_first_scalar,
    encode_utf8_valid_utf8, is_char_boundary, pop_first_scalar,
};

verus! {

/// A line taken off a `'\n'` terminator loses one `'\r'` just before it.
pub open spec fn strip_cr(l: Seq<char>) -> Seq<char> {
    if l.len() > 0 && l.last() == '\r' {
        l.drop_last()
    } else {
        l
    }
}

/// The lines of `s` from a scan at position `i`, where the current line
/// began at `start`.
pub open spec fn lines_scan(s: Seq<char>, start: int, i: int) -> Seq<Seq<char>>
    decreases s.len() - i,
{
    if !(0 <= start <= i) || i >= s.len() {
        if 0 <= start < s.len() {
            seq![s.subrange(start, s.len() as int)]
        } else {
            Seq::empty()
        }
    } else if s[i] == '\n' {
        seq![strip_cr(s.subrange(start, i))] + lines_scan(s, i + 1, i + 1)
    } else {
        lines_scan(s, start, i + 1)
    }
}

/// The lines of a text: it is cut at each `'\n'`, a `'\r'` right before a
/// `'\n'` belongs to the line break, and a final line break opens no empty
/// last line. An empty text has no lines.
pub open spec fn lines_of(s: Seq<char>) -> Seq<Seq<char>> {
    lines_scan(s, 0, 0)
}

/// `needle` occurs in `hay` as a contiguous run of characters.
pub open spec fn contains(hay: Seq<char>, needle: Seq<char>) -> bool {
    exists|i: int| 0 <= i <= hay.len() - needle.len() && #[trigger] hay.subrange(i, i + needle.len()) == needle
}

/// The views of a sequence of string slices.
pub open spec fn views_of(v: Seq<&str>) -> Seq<Seq<char>> {
    v.map_values(|l: &str| l@)
}

/// The characters of `s`, in order.
fn chars_of(s: &str) -> (r: Vec<char>)
    ensures
        r@ == s@,
{
    broadcast use vstd::string::group_string_axioms;

    let mut it = s.chars();
    let mut r: Vec<char> = Vec::new();
    loop
        invariant
            r@ + it.remaining() == s@,
        ensures
            r@ == s@,
        decreases s@.len() - r@.len(),
    {
        match it.next() {
            Some(c) => {
                r.push(c);
            },
            None => {
                assert(r@ =~= s@);
                break;
            },
        }
    }
    r
}

/// The number of UTF-8 bytes taken by the first `i` characters of `s`.
pub open spec fn byte_offset(s: Seq<char>, i: int) -> int {
    encode_utf8(s.subrange(0, i)).len() as int
}

/// Encoding distributes over concatenation.
proof fn lemma_encode_concat(a: Seq<char>, b: Seq<char>)
    ensures
        encode_utf8(a + b) == encode_utf8(a) + encode_utf8(b),
    decreases a.len(),
{
    if a.len() == 0 {
        assert(a + b =~= b);
        assert(encode_utf8(a) + encode_utf8(b) =~= encode_utf8(b));
    } else {
        assert((a + b).drop_first() =~= a.drop_first() + b);
        lemma_encode_concat(a.drop_first(), b);
        assert((a + b)[0] == a[0]);
        assert(encode_utf8(a + b) =~= encode_utf8(a) + encode_utf8(b));
    }
}

/// Every character takes at least one byte.
proof fn lemma_encode_scalar_nonempty(c: char)
    ensures
        encode_scalar(c as u32).len() >= 1,
{
}

/// The end of an encoded prefix is a character boundary of the whole encoding.
proof fn lemma_encode_boundary(a: Seq<char>, b: Seq<char>)
    ensures
        is_char_boundary(encode_utf8(a + b), encode_utf8(a).len() as int),
    decreases a.len(),
{
    broadcast use encode_utf8_valid_utf8;

    if a.len() > 0 {
        let ab = a + b;
        let bytes = encode_utf8(ab);
        encode_utf8_first_scalar(ab);
        assert(ab.drop_first() =~= a.drop_first() + b);
        assert(ab[0] == a[0]);
        lemma_encode_scalar_nonempty(a[0]);
        assert(pop_first_scalar(bytes) =~= encode_utf8(a.drop_first() + b));
        lemma_encode_boundary(a.drop_first(), b);
    }
}

/// Cutting `s` after `i` characters cuts its encoding at a character
/// boundary, into the encodings of the two parts.
proof fn lemma_split_point(s: Seq<char>, i: int)
    requires
        0 <= i <= s.len(),
    ensures
        is_char_boundary(encode_utf8(s), byte_offset(s, i)),
        encode_utf8(s).subrange(byte_offset(s, i), encode_utf8(s).len() as int) == encode_utf8(
            s.subrange(i, s.len() as int),
        ),
        byte_offset(s, i) <= encode_utf8(s).len(),
{
    let a = s.subrange(0, i);
    let b = s.subrange(i, s.len() as int);
    assert(a + b =~= s);
    lemma_encode_concat(a, b);
    lemma_encode_boundary(a, b);
    assert(encode_utf8(s).subrange(byte_offset(s, i), encode_utf8(s).len() as int)
        =~= encode_utf8(b));
}

/// One more character adds the width of its encoding to the byte offset.
proof fn lemma_byte_offset_step(s: Seq<char>, i: int)
    requires
        0 <= i < s.len(),
    ensures
        byte_offset(s, i + 1) == byte_offset(s, i) + encode_scalar(s[i] as u32).len(),
        byte_offset(s, i + 1) <= encode_utf8(s).len(),
{
    let c = seq![s[i]];
    assert(s.subrange(0, i + 1) =~= s.subrange(0, i) + c);
    lemma_encode_concat(s.subrange(0, i), c);
    assert(c.drop_first() =~= Seq::<char>::empty());
    assert(encode_utf8(Seq::<char>::empty()) =~= Seq::<u8>::empty());
    assert(c[0] == s[i]);
    assert(encode_utf8(c) =~= encode_scalar(s[i] as u32) + Seq::<u8>::empty());
    assert(encode_utf8(c) =~= encode_scalar(s[i] as u32));
    lemma_split_point(s, i + 1);
}

/// The number of bytes in the UTF-8 encoding of `c`.
fn utf8_width(c: char) -> (w: usize)
    ensures
        w == encode_scalar(c as u32).len(),
{
    proof {
        char_is_scalar(c);
    }
    let u = c as u32;
    if u <= 0x7F {
        1
    } else if u <= 0x7FF {
        2
    } else if u <= 0xFFFF {
        3
    } else {
        4
    }
}

/// The characters `i..j` of `s`, which start at byte `bi` and end at byte `bj`.
fn slice_at<'a>(s: &'a str, i: usize, bi: usize, j: usize, bj: usize) -> (r: &'a str)
    requires
        i <= j <= s@.len(),
        bi == byte_offset(s@, i as int),
        bj == byte_offset(s@, j as int),
    ensures
        r@ == s@.subrange(i as int, j as int),
{
    broadcast use encode_utf8_decode_utf8;

    proof {
        lemma_split_point(s@, i as int);
    }
    let (_, tail) = s.split_at(bi);
    proof {
        let rest = s@.subrange(i as int, s@.len() as int);
        assert(encode_utf8(tail@) == encode_utf8(rest));
        assert(decode_of_encode(tail@) == decode_of_encode(rest));
        let pre_j = s@.subrange(0, j as int);
        assert(pre_j =~= s@.subrange(0, i as int) + rest.subrange(0, j - i));
        lemma_encode_concat(s@.subrange(0, i as int), rest.subrange(0, j - i));
        assert(tail@.subrange(0, 0) =~= Seq::<char>::empty());
        lemma_split_point(tail@, j - i);
        assert(encode_utf8(tail@).subrange(0, byte_offset(tail@, j - i)) =~= encode_utf8(
            rest.subrange(0, j - i),
        )) by {
            let a = tail@.subrange(0, j - i);
            let b = tail@.subrange(j - i, tail@.len() as int);
            assert(a + b =~= tail@);
            lemma_encode_concat(a, b);
        }
    }
    let (r, _) = tail.split_at(bj - bi);
    proof {
        let piece = s@.subrange(i as int, j as int);
        assert(s@.subrange(i as int, s@.len() as int).subrange(0, j - i) =~= piece);
        assert(encode_utf8(r@) == encode_utf8(piece));
        assert(decode_of_encode(r@) == decode_of_encode(piece));
    }
    r
}

/// Decoding undoes encoding.
spec fn decode_of_encode(s: Seq<char>) -> Seq<char> {
    vstd::utf8::decode_utf8(encode_utf8(s))
}

/// The lines of `contents`, in order, as slices of it.
pub fn lines<'a>(contents: &'a str) -> (r: Vec<&'a str>)
    ensures
        views_of(r@) == lines_of(contents@),
{
    let cs = chars_of(contents);
    let n = cs.len();
    let nb = contents.as_bytes().len();
    let mut r: Vec<&'a str> = Vec::new();
    let mut start: usize = 0;
    let mut i: usize = 0;
    let mut bstart: usize = 0;
    let mut b: usize = 0;
    assert(cs@.subrange(0, 0) =~= Seq::<char>::empty());
    while i < n
        invariant
            start <= i <= n,
            n == cs@.len(),
            cs@ == contents@,
            nb == encode_utf8(cs@).len(),
            b == byte_offset(cs@, i as int),
            bstart == byte_offset(cs@, start as int),
            views_of(r@) + lines_scan(cs@, start as int, i as int) == lines_of(cs@),
        decreases n - i,
    {
        proof {
            lemma_byte_offset_step(cs@, i as int);
        }
        let next_b = b + utf8_width(cs[i]);
        if cs[i] == '\n' {
            let mut end: usize = i;
            let mut bend: usize = b;
            if i > start && cs[i - 1] == '\r' {
                proof {
                    lemma_byte_offset_step(cs@, i - 1);
                }
                end = i - 1;
                bend = b - 1;
                assert(cs@.subrange(start as int, i as int).drop_last() =~= cs@.subrange(
                    start as int,
                    end as int,
                ));
            }
            let line = slice_at(contents, start, bstart, end, bend);
            proof {
                let old_r = r@;
                let next = lines_scan(cs@, i + 1, i + 1);
                assert(line@ == strip_cr(cs@.subrange(start as int, i as int)));
                assert(views_of(old_r.push(line)) =~= views_of(old_r).push(line@));
                assert(views_of(old_r) + (seq![line@] + next) =~= views_of(old_r).push(line@)
                    + next);
            }
            r.push(line);
            start = i + 1;
            bstart = next_b;
        }
        b = next_b;
        i = i + 1;
    }
    if start < n {
        let line = slice_at(contents, start, bstart, n, b);
        proof {
            let old_r = r@;
            assert(views_of(old_r.push(line)) =~= views_of(old_r).push(line@));
            assert(views_of(old_r) + seq![line@] =~= views_of(old_r).push(line@));
        }
        r.push(line);
    } else {
        assert(views_of(r@) + lines_scan(cs@, start as int, i as int) =~= views_of(r@));
    }
    r
}

/// Whether `needle` occurs in `hay` at position `i`.
fn occurs_at(hay: &Vec<char>, needle: &Vec<char>, i: usize) -> (r: bool)
    requires
        i + needle@.len() <= hay@.len(),
    ensures
        r == (hay@.subrange(i as int, i + needle@.len()) == needle@),
{
    let m = needle.len();
    let hl = hay.len();
    let mut k: usize = 0;
    while k < m
        invariant
            k <= m,
            m == needle@.len(),
            hl == hay@.len(),
            i + m <= hl,
            forall|t: int| 0 <= t < k ==> hay@[i + t] == needle@[t],
        decreases m - k,
    {
        if hay[i + k] != needle[k] {
            assert(hay@.subrange(i as int, i + m)[k as int] != needle@[k as int]);
            return false;
        }
        k = k + 1;
    }
    assert(hay@.subrange(i as int, i + m) =~= needle@);
    true
}

/// Whether `needle` occurs in `hay` as a contiguous run of characters; the
/// empty needle occurs in every text.
pub fn contains_str(hay: &str, needle: &str) -> (r: bool)
    ensures
        r == contains(hay@, needle@),
{
    let h = chars_of(hay);
    let nd = chars_of(needle);
    if nd.len() > h.len() {
        return false;
    }
    let last = h.len() - nd.len();
    let mut i: usize = 0;
    loop
        invariant
            i <= last,
            last == h@.len() - nd@.len(),
            h@ == hay@,
            nd@ == needle@,
            forall|j: int| 0 <= j < i ==> #[trigger] h@.subrange(j, j + nd@.len()) != nd@,
        decreases last - i,
    {
        if occurs_at(&h, &nd, i) {
            return true;
        }
        if i == last {
            return false;
        }
        i = i + 1;
    }
}

} // verus!

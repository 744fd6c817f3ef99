//! Character and substring primitives that the symbol classifier builds on.
use vstd::prelude::*;
use vstd::string::{StrSliceExecFns, StringExecFns};

verus! {

/// Whether a character has the Unicode `Alphabetic` property, as decided by
/// `char::is_alphabetic`. The full property table is far too large to state,
/// so it is left abstract; only its ASCII fragment is pinned down below.
pub uninterp spec fn is_alpha(c: char) -> bool;

/// Whether `c` is an ASCII letter.
pub open spec fn is_ascii_letter(c: char) -> bool {
    ('a' as u32) <= (c as u32) <= ('z' as u32) || ('A' as u32) <= (c as u32) <= ('Z' as u32)
}

/// Relies on `char::is_alphabetic`: the result depends on the character
/// alone, ASCII letters are alphabetic, and other ASCII characters are not.
#[verifier::external_body]
fn char_is_alphabetic(c: char) -> (r: bool)
    ensures
        r == is_alpha(c),
        is_ascii_letter(c) ==> r,
        (c as u32) < 128 && !is_ascii_letter(c) ==> !r,
{
    c.is_alphabetic()
}

/// The alphabetic test, with its meaning pinned on ASCII: letters pass,
/// every other ASCII character does not. This is the public anchor tying
/// `is_alpha` - and with it the classification of concrete tickers - down.
pub fn is_alphabetic_char(c: char) -> (r: bool)
    ensures
        r == is_alpha(c),
        is_ascii_letter(c) ==> r,
        (c as u32) < 128 && !is_ascii_letter(c) ==> !r,
{
    char_is_alphabetic(c)
}

/// Relies on `String::push`: appends one character at the end.
#[verifier::external_body]
fn push_char(s: &mut String, c: char)
    ensures
        final(s)@ == old(s)@.push(c),
{
    s.push(c)
}

/// `needle` occurs as a contiguous run of characters inside `hay`.
pub open spec fn spec_contains(hay: Seq<char>, needle: Seq<char>) -> bool {
    exists|i: int|
        0 <= i && i + needle.len() <= hay.len() && #[trigger] hay.subrange(i, i + needle.len())
            == needle
}

/// Relies on `str::contains`: true exactly when the pattern matches a
/// sub-slice of the string.
#[verifier::external_body]
pub(crate) fn str_contains(hay: &str, needle: &str) -> (r: bool)
    ensures
        r == spec_contains(hay@, needle@),
{
    hay.contains(needle)
}

/// The subsequence of alphabetic characters of `s`, in order.
pub open spec fn filter_alpha(s: Seq<char>) -> Seq<char> {
    s.filter(|c: char| is_alpha(c))
}

proof fn lemma_filter_alpha_push(s: Seq<char>, c: char)
    ensures
        filter_alpha(s.push(c)) == if is_alpha(c) {
            filter_alpha(s).push(c)
        } else {
            filter_alpha(s)
        },
{
    reveal(Seq::filter);
    assert(s.push(c).drop_last() =~= s);
    assert(s.push(c).last() == c);
}

/// Copy of `s` keeping only its alphabetic characters.
pub fn retain_alphabetic(s: &str) -> (r: String)
    ensures
        r@ == filter_alpha(s@),
{
    let n = s.unicode_len();
    let mut out = String::new();
    let mut i: usize = 0;
    while i < n
        invariant
            n == s@.len(),
            i <= n,
            out@ == filter_alpha(s@.subrange(0, i as int)),
        decreases n - i,
    {
        let c = s.get_char(i);
        proof {
            lemma_filter_alpha_push(s@.subrange(0, i as int), c);
            assert(s@.subrange(0, i as int).push(c) =~= s@.subrange(0, i + 1 as int));
        }
        if is_alphabetic_char(c) {
            push_char(&mut out, c);
        }
        i = i + 1;
    }
    proof {
        assert(s@.subrange(0, n as int) =~= s@);
    }
    out
}

/// Character-for-character equality of two strings.
pub fn str_eq(a: &str, b: &str) -> (r: bool)
    ensures
        r == (a@ == b@),
{
    let na = a.unicode_len();
    let nb = b.unicode_len();
    if na != nb {
        proof {
            assert(a@ != b@);
        }
        return false;
    }
    let mut i: usize = 0;
    while i < na
        invariant
            na == a@.len(),
            nb == b@.len(),
            na == nb,
            i <= na,
            a@.subrange(0, i as int) == b@.subrange(0, i as int),
        decreases na - i,
    {
        let ca = a.get_char(i);
        let cb = b.get_char(i);
        if (ca as u32) != (cb as u32) {
            proof {
                assert(a@[i as int] != b@[i as int]);
            }
            return false;
        }
        proof {
            assert(a@.subrange(0, i as int).push(ca) =~= a@.subrange(0, i + 1 as int));
            assert(b@.subrange(0, i as int).push(cb) =~= b@.subrange(0, i + 1 as int));
        }
        i = i + 1;
    }
    proof {
        assert(a@.subrange(0, na as int) =~= a@);
        assert(b@.subrange(0, nb as int) =~= b@);
    }
    true
}

/// `a` precedes `b` in lexicographic order over character code points,
/// strictly.
pub open spec fn seq_char_lt(a: Seq<char>, b: Seq<char>) -> bool
    decreases a.len(),
{
    if b.len() == 0 {
        false
    } else if a.len() == 0 {
        true
    } else if (a[0] as u32) < (b[0] as u32) {
        true
    } else if (a[0] as u32) > (b[0] as u32) {
        false
    } else {
        seq_char_lt(a.drop_first(), b.drop_first())
    }
}

/// Filtering commutes with appending one element at the end.
pub(crate) proof fn lemma_filter_push<A>(s: Seq<A>, pred: spec_fn(A) -> bool, x: A)
    ensures
        s.push(x).filter(pred) == if pred(x) {
            s.filter(pred).push(x)
        } else {
            s.filter(pred)
        },
{
    reveal(Seq::filter);
    assert(s.push(x).drop_last() =~= s);
    assert(s.push(x).last() == x);
}

/// The items joined by single commas, in order, with no trailing separator.
pub open spec fn spec_comma_join(items: Seq<Seq<char>>) -> Seq<char>
    decreases items.len(),
{
    if items.len() == 0 {
        Seq::empty()
    } else if items.len() == 1 {
        items[0]
    } else {
        spec_comma_join(items.drop_last()) + ","@ + items.last()
    }
}

/// The views of a sequence of strings.
pub open spec fn str_views(items: Seq<String>) -> Seq<Seq<char>> {
    items.map_values(|s: String| s@)
}

/// Join strings with commas: the textual form a request takes for a list.
pub fn comma_join(items: &Vec<String>) -> (r: String)
    ensures
        r@ == spec_comma_join(str_views(items@)),
{
    let mut out = String::new();
    let n = items.len();
    let mut i: usize = 0;
    proof {
        assert(str_views(items@.subrange(0, 0)) =~= Seq::<Seq<char>>::empty());
    }
    while i < n
        invariant
            n == items@.len(),
            i <= n,
            out@ == spec_comma_join(str_views(items@.subrange(0, i as int))),
        decreases n - i,
    {
        proof {
            assert(str_views(items@.subrange(0, i + 1 as int)).drop_last() =~= str_views(
                items@.subrange(0, i as int),
            ));
            assert(str_views(items@.subrange(0, i + 1 as int)).last() == items@[i as int]@);
            assert(str_views(items@.subrange(0, i + 1 as int)).len() == i + 1);
        }
        if i > 0 {
            out.append(",");
        }
        out.append(items[i].as_str());
        i = i + 1;
    }
    proof {
        assert(items@.subrange(0, n as int) =~= items@);
    }
    out
}

/// A character is its code point: equal code points, equal characters.
proof fn lemma_char_code_point(c1: char, c2: char)
    requires
        c1 as u32 == c2 as u32,
    ensures
        c1 == c2,
{
}

/// The lexicographic order is total: two sequences compare one way or the
/// other, or they are equal.
pub proof fn lemma_seq_char_lt_trichotomy(a: Seq<char>, b: Seq<char>)
    ensures
        seq_char_lt(a, b) || seq_char_lt(b, a) || a == b,
    decreases a.len(),
{
    if b.len() == 0 {
        if a.len() == 0 {
            assert(a =~= b);
        }
    } else if a.len() == 0 {
    } else {
        if (a[0] as u32) == (b[0] as u32) {
            lemma_seq_char_lt_trichotomy(a.drop_first(), b.drop_first());
            if !seq_char_lt(a, b) && !seq_char_lt(b, a) {
                lemma_char_code_point(a[0], b[0]);
                assert(a[0] == b[0]);
                assert(a.drop_first() == b.drop_first());
                assert forall|i: int| 0 <= i < a.len() implies a[i] == b[i] by {
                    if i > 0 {
                        assert(a[i] == a.drop_first()[i - 1]);
                        assert(b[i] == b.drop_first()[i - 1]);
                    }
                }
                assert(a =~= b);
            }
        }
    }
}

/// The lexicographic order is transitive.
pub proof fn lemma_seq_char_lt_trans(a: Seq<char>, b: Seq<char>, c: Seq<char>)
    requires
        seq_char_lt(a, b),
        seq_char_lt(b, c),
    ensures
        seq_char_lt(a, c),
    decreases a.len(),
{
    if a.len() > 0 {
        if (a[0] as u32) == (b[0] as u32) && (b[0] as u32) == (c[0] as u32) {
            lemma_seq_char_lt_trans(a.drop_first(), b.drop_first(), c.drop_first());
        }
    }
}

/// Lexicographic strict comparison of two strings by character code points.
pub fn str_lt(a: &str, b: &str) -> (r: bool)
    ensures
        r == seq_char_lt(a@, b@),
{
    let na = a.unicode_len();
    let nb = b.unicode_len();
    let mut i: usize = 0;
    proof {
        assert(a@.subrange(0, na as int) =~= a@);
        assert(b@.subrange(0, nb as int) =~= b@);
    }
    loop
        invariant
            na == a@.len(),
            nb == b@.len(),
            i <= na,
            i <= nb,
            seq_char_lt(a@, b@) == seq_char_lt(
                a@.subrange(i as int, na as int),
                b@.subrange(i as int, nb as int),
            ),
        decreases na - i,
    {
        if i >= nb {
            proof {
                assert(b@.subrange(i as int, nb as int).len() == 0);
            }
            return false;
        }
        if i >= na {
            proof {
                assert(a@.subrange(i as int, na as int).len() == 0);
                assert(b@.subrange(i as int, nb as int).len() > 0);
            }
            return true;
        }
        let ca = a.get_char(i);
        let cb = b.get_char(i);
        proof {
            let ra = a@.subrange(i as int, na as int);
            let rb = b@.subrange(i as int, nb as int);
            assert(ra[0] == a@[i as int]);
            assert(rb[0] == b@[i as int]);
            assert(ra.drop_first() =~= a@.subrange(i + 1 as int, na as int));
            assert(rb.drop_first() =~= b@.subrange(i + 1 as int, nb as int));
        }
        if (ca as u32) < (cb as u32) {
            return true;
        }
        if (ca as u32) > (cb as u32) {
            return false;
        }
        i = i + 1;
    }
}

} // verus!

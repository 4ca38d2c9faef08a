//! Characters, substrings and lines of a text.
use vstd::prelude::*;
use vstd::string::StringSliceAdditionalSpecFns;
use vstd::utf8::*;

verus! {

/// `pat` occurs in `text` starting at position `i`.
pub open spec fn occurs_at(text: Seq<char>, pat: Seq<char>, i: int) -> bool {
    0 <= i && i + pat.len() <= text.len() && text.subrange(i, i + pat.len()) == pat
}

/// `pat` is a contiguous substring of `text`.
pub open spec fn has_substring(text: Seq<char>, pat: Seq<char>) -> bool {
    exists|i: int| occurs_at(text, pat, i)
}

/// Collects the characters of `s`.
pub fn chars_of(s: &str) -> (r: Vec<char>)
    ensures
        r@ == s@,
{
    broadcast use vstd::string::group_string_axioms;

    let mut out: Vec<char> = Vec::new();
    for c in it: s.chars()
        invariant
            out@ == it.seq().take(it.index() as int),
    {
        out.push(c);
    }
    assert(out@ =~= s@);
    out
}

/// Whether `pat` occurs in `text` starting at position `i`.
fn occurs_at_exec(text: &Vec<char>, pat: &Vec<char>, i: usize) -> (r: bool)
    requires
        i + pat@.len() <= text@.len(),
    ensures
        r == occurs_at(text@, pat@, i as int),
{
    let n: usize = text.len();
    let mut j: usize = 0;
    while j < pat.len()
        invariant
            n == text@.len(),
            i + pat@.len() <= text@.len(),
            j <= pat@.len(),
            forall|k: int| 0 <= k < j ==> text@[i + k] == pat@[k],
        decreases pat@.len() - j,
    {
        if text[i + j] != pat[j] {
            assert(text@.subrange(i as int, i + pat@.len())[j as int] != pat@[j as int]);
            return false;
        }
        j = j + 1;
    }
    assert(text@.subrange(i as int, i + pat@.len()) =~= pat@);
    true
}

/// Whether the characters `pat` occur contiguously in the characters `text`.
pub fn contains_chars(text: &Vec<char>, pat: &Vec<char>) -> (r: bool)
    ensures
        r == has_substring(text@, pat@),
{
    if pat.len() > text.len() {
        return false;
    }
    let last: usize = text.len() - pat.len();
    let mut i: usize = 0;
    loop
        invariant
            i <= last,
            last + pat@.len() == text@.len(),
            forall|k: int| 0 <= k < i ==> !occurs_at(text@, pat@, k),
        decreases last - i,
    {
        if occurs_at_exec(text, pat, i) {
            return true;
        }
        if i == last {
            return false;
        }
        i = i + 1;
    }
}

/// Whether `pattern` is a contiguous substring of `text`.
pub fn contains_str(text: &str, pattern: &str) -> (r: bool)
    ensures
        r == has_substring(text@, pattern@),
{
    let t = chars_of(text);
    let p = chars_of(pattern);
    contains_chars(&t, &p)
}

/// No character of `s` is a newline.
pub open spec fn newline_free(s: Seq<char>) -> bool {
    forall|i: int| 0 <= i < s.len() ==> s[i] != '\n'
}

/// Position of the first newline in `s`, or `s.len()` when there is none.
pub open spec fn first_newline(s: Seq<char>) -> nat
    decreases s.len(),
{
    if s.len() == 0 || s[0] == '\n' {
        0
    } else {
        1 + first_newline(s.drop_first())
    }
}

/// The lines of `s`: the pieces between newlines, where a final newline ends
/// the last line rather than starting an empty one, and an empty text has no
/// lines at all.
pub open spec fn lines_of(s: Seq<char>) -> Seq<Seq<char>>
    decreases s.len(),
{
    if s.len() == 0 {
        seq![]
    } else if first_newline(s) >= s.len() {
        seq![s]
    } else {
        seq![s.take(first_newline(s) as int)] + lines_of(s.skip(first_newline(s) + 1int))
    }
}

/// The character sequences that a sequence of string slices stands for.
pub open spec fn views(v: Seq<&str>) -> Seq<Seq<char>> {
    v.map_values(|l: &str| l@)
}

proof fn lemma_first_newline(s: Seq<char>, k: int)
    requires
        0 <= k <= s.len(),
        newline_free(s.take(k)),
        k == s.len() || s[k] == '\n',
    ensures
        first_newline(s) == k,
    decreases k,
{
    if k > 0 {
        assert(s.take(k)[0] == s[0]);
        assert(s.drop_first().take(k - 1) =~= s.take(k).drop_first());
        lemma_first_newline(s.drop_first(), k - 1);
    }
}

proof fn lemma_encode_concat(a: Seq<char>, b: Seq<char>)
    ensures
        encode_utf8(a + b) == encode_utf8(a) + encode_utf8(b),
    decreases a.len(),
{
    if a.len() == 0 {
        assert(a + b =~= b);
        assert(encode_utf8(a) + encode_utf8(b) =~= encode_utf8(b));
    } else {
        lemma_encode_concat(a.drop_first(), b);
        assert((a + b).drop_first() =~= a.drop_first() + b);
        assert((a + b)[0] == a[0]);
        assert(encode_utf8(a + b) =~= encode_utf8(a) + encode_utf8(b));
    }
}

/// A newline among the characters shows as the byte 10 in their encoding.
proof fn lemma_newline_byte(x: Seq<char>, i: int)
    requires
        0 <= i < x.len(),
        x[i] == '\n',
    ensures
        exists|j: int| 0 <= j < encode_utf8(x).len() && encode_utf8(x)[j] == 10u8,
{
    let pre = x.take(i);
    let post = x.skip(i);
    assert(x =~= pre + post);
    lemma_encode_concat(pre, post);
    assert(post[0] == '\n');
    assert(('\n' as u32) == 10u32);
    assert((10u32 & 0x7Fu32) == 10u32) by (bit_vector);
    assert(encode_scalar(post[0] as u32) =~= seq![10u8]);
    let j = encode_utf8(pre).len() as int;
    assert(encode_utf8(x)[j] == 10u8);
}

/// Splits `content` into its lines, as `lines_of` describes them, without
/// copying: each line is a slice of `content`.
pub fn split_lines<'a>(content: &'a str) -> (r: Vec<&'a str>)
    ensures
        views(r@) == lines_of(content@),
{
    broadcast use encode_utf8_valid_utf8, encode_utf8_decode_utf8;

    let mut out: Vec<&'a str> = Vec::new();
    let mut rest: &'a str = content;
    loop
        invariant
            views(out@) + lines_of(rest@) == lines_of(content@),
        decreases rest@.len(),
    {
        if rest.is_empty() {
            assert(views(out@) + lines_of(rest@) =~= views(out@));
            return out;
        }
        let bytes: &[u8] = rest.as_bytes();
        let n: usize = bytes.len();
        let mut k: usize = 0;
        while k < n && bytes[k] != 10u8
            invariant
                k <= n,
                n == bytes@.len(),
                forall|j: int| 0 <= j < k ==> bytes@[j] != 10u8,
            decreases n - k,
        {
            k = k + 1;
        }
        if k == n {
            proof {
                assert forall|i: int| 0 <= i < rest@.len() implies rest@[i] != '\n' by {
                    if rest@[i] == '\n' {
                        lemma_newline_byte(rest@, i);
                    }
                }
                assert(rest@.take(rest@.len() as int) =~= rest@);
                lemma_first_newline(rest@, rest@.len() as int);
            }
            let ghost before = out@;
            out.push(rest);
            assert(views(out@) =~= views(before).push(rest@));
            assert(views(out@) =~= views(before) + lines_of(rest@));
            return out;
        }
        let ghost b = bytes@;
        proof {
            encode_utf8_valid_utf8(rest@);
            is_char_boundary_iff_not_is_continuation_byte(b, k as int);
        }
        let (line, tail) = rest.split_at(k);
        let ghost t = tail.spec_bytes();
        proof {
            encode_utf8_valid_utf8(tail@);
            assert(t[0] == 10u8);
            assert(valid_utf8(pop_first_scalar(t)));
            assert(length_of_first_scalar(t) == 1);
            assert(is_char_boundary(pop_first_scalar(t), 0));
            assert(is_char_boundary(t, 1));
        }
        let (head, after) = tail.split_at(1);
        proof {
            encode_utf8_decode_utf8(rest@);
            decode_utf8_split(b, k as int);
            encode_utf8_decode_utf8(line@);
            assert(decode_utf8(line.spec_bytes()) == line@);
            encode_utf8_decode_utf8(tail@);
            assert(decode_utf8(tail.spec_bytes()) == tail@);
            assert(rest@ == line@ + tail@);
            decode_utf8_split(t, 1);
            encode_utf8_decode_utf8(head@);
            assert(decode_utf8(head.spec_bytes()) == head@);
            encode_utf8_decode_utf8(after@);
            assert(decode_utf8(after.spec_bytes()) == after@);
            assert(tail@ == head@ + after@);
            assert(head.spec_bytes() =~= seq![10u8]);
            assert((10u8 & 0x7Fu8) == 10u8) by (bit_vector);
            assert(decode_first_scalar(seq![10u8]) == 10u32);
            assert(('\n' as u32) == 10u32);
            vstd::utf8::char_u32_cast('\n', 10u32);
            assert(head@ =~= seq!['\n']);
            assert forall|i: int| 0 <= i < line@.len() implies line@[i] != '\n' by {
                if line@[i] == '\n' {
                    lemma_newline_byte(line@, i);
                }
            }
            let m = line@.len() as int;
            assert(rest@.take(m) =~= line@);
            assert(rest@.skip(m + 1) =~= after@);
            lemma_first_newline(rest@, m);
            assert(lines_of(rest@) == seq![line@] + lines_of(after@));
        }
        let ghost before = out@;
        out.push(line);
        assert(views(out@) =~= views(before).push(line@));
        assert(views(out@) + lines_of(after@) =~= views(before) + lines_of(rest@));
        rest = after;
    }
}

} // verus!

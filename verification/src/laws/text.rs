//! Laws of texts: what is found in them, what is cut off, and how numbers and lists read.

use vstd::prelude::*;
use vstd::utf8::*;

use crate::hash::{hex_text, lemma_hex_text_injective, sha256, sha256_file, to_hex};
use crate::text::{
    before_first, begins_with, contains_part, decimal, decimal_text, first_of, has_part, is_white,
    join_texts, joined, lemma_first_of, lemma_first_of_is, lemma_text_reads_back, lines_of, lowered,
    read_text, same_text, split_lines, text_before, text_lt, texts, trim_end, trim_start, trim_text,
    trimmed, white, without_prefix, without_return,
};

verus! {

/// A text stands in every text that is put together around it.
pub proof fn lemma_part_between(a: Seq<char>, part: Seq<char>, b: Seq<char>)
    ensures
        has_part(a + part + b, part),
{
    let s = a + part + b;
    let i = a.len() as int;
    assert(s.subrange(i, i + part.len()) =~= part);
}

/// A text in which another stands is what comes before it, it, and what comes after it.
pub proof fn lemma_part_splits(s: Seq<char>, part: Seq<char>)
    requires
        has_part(s, part),
    ensures
        exists|a: Seq<char>, b: Seq<char>| s == #[trigger] (a + part + b),
{
    let i = choose|i: int|
        0 <= i <= s.len() - part.len() && #[trigger] s.subrange(i, i + part.len()) == part;
    let a = s.take(i);
    let b = s.skip(i + part.len());
    assert(s =~= a + part + b);
}

/// A text contains another exactly if it is that one with something, or nothing, before and
/// behind it.
pub proof fn law_contains_part(s: &str, part: &str, r: bool)
    requires
        call_ensures(contains_part, (s, part), r),
    ensures
        r <==> exists|a: Seq<char>, b: Seq<char>| s@ == #[trigger] (a + part@ + b),
{
    if r {
        lemma_part_splits(s@, part@);
    }
    if exists|a: Seq<char>, b: Seq<char>| s@ == #[trigger] (a + part@ + b) {
        let (a, b) = choose|a: Seq<char>, b: Seq<char>| s@ == #[trigger] (a + part@ + b);
        lemma_part_between(a, part@, b);
    }
}

/// A text begins with another exactly if it is that one with something, or nothing, behind
/// it, and that something is what remains without it.
pub proof fn law_begins_with(s: &str, prefix: &str, r: bool, rest: Option<String>)
    requires
        call_ensures(begins_with, (s, prefix), r),
        call_ensures(without_prefix, (s, prefix), rest),
    ensures
        r <==> exists|b: Seq<char>| s@ == #[trigger] (prefix@ + b),
        rest is Some <==> r,
        rest matches Some(b) ==> s@ == prefix@ + b@,
{
    if r {
        assert(s@ =~= prefix@ + s@.skip(prefix@.len() as int));
    }
    if exists|b: Seq<char>| s@ == #[trigger] (prefix@ + b) {
        let b = choose|b: Seq<char>| s@ == #[trigger] (prefix@ + b);
        assert(prefix@ =~= s@.subrange(0, prefix@.len() as int));
    }
}

/// Two texts are the same exactly if they have the same characters.
pub proof fn law_same_text(a: &str, b: &str, r: bool)
    requires
        call_ensures(same_text, (a, b), r),
    ensures
        r <==> a@.len() == b@.len() && forall|i: int| 0 <= i < a@.len() ==> a@[i] == b@[i],
{
    if a@.len() == b@.len() && forall|i: int| 0 <= i < a@.len() ==> a@[i] == b@[i] {
        assert(a@ =~= b@);
    }
}

/// Making letters small touches the 26 capital letters of ASCII and nothing else, each in
/// its place.
pub proof fn law_lowered(s: &str, r: String)
    requires
        call_ensures(lowered, (s,), r),
    ensures
        r@.len() == s@.len(),
        forall|i: int|
            0 <= i < s@.len() ==> (if 65 <= #[trigger] s@[i] as int <= 90 {
                r@[i] as int == s@[i] as int + 32
            } else {
                r@[i] == s@[i]
            }),
{
}

/// White space, by code point.
pub open spec fn is_space(c: char) -> bool {
    let n = c as int;
    9 <= n <= 13 || n == 0x20 || n == 0x85 || n == 0xa0 || n == 0x1680 || 0x2000 <= n <= 0x200a || n
        == 0x2028 || n == 0x2029 || n == 0x202f || n == 0x205f || n == 0x3000
}

/// There is nothing but white space.
pub open spec fn is_blank(s: Seq<char>) -> bool {
    forall|i: int| 0 <= i < s.len() ==> is_space(#[trigger] s[i])
}

/// White space is what Unicode calls so.
pub proof fn law_white(c: char, r: bool)
    requires
        call_ensures(white, (c,), r),
    ensures
        r == is_space(c),
{
}

proof fn lemma_trim_start(s: Seq<char>)
    ensures
        trim_start(s).len() <= s.len(),
        trim_start(s) == s.skip(s.len() - trim_start(s).len()),
        is_blank(s.take(s.len() - trim_start(s).len())),
        trim_start(s).len() > 0 ==> !is_space(trim_start(s)[0]),
    decreases s.len(),
{
    if s.len() > 0 && is_white(s[0]) {
        let t = s.drop_first();
        lemma_trim_start(t);
        let n = s.len() - trim_start(s).len();
        assert(t.skip(n - 1) =~= s.skip(n));
        assert forall|i: int| 0 <= i < n implies is_space(#[trigger] s.take(n)[i]) by {
            if i > 0 {
                assert(t.take(n - 1)[i - 1] == s.take(n)[i]);
            }
        }
    } else {
        assert(s =~= s.skip(0));
    }
}

proof fn lemma_trim_end(s: Seq<char>)
    ensures
        trim_end(s).len() <= s.len(),
        trim_end(s) == s.take(trim_end(s).len() as int),
        is_blank(s.skip(trim_end(s).len() as int)),
        trim_end(s).len() > 0 ==> !is_space(trim_end(s).last()),
    decreases s.len(),
{
    if s.len() > 0 && is_white(s.last()) {
        let t = s.drop_last();
        lemma_trim_end(t);
        let n = trim_end(s).len() as int;
        assert(t.take(n) =~= s.take(n));
        assert forall|i: int| 0 <= i < s.len() - n implies is_space(#[trigger] s.skip(n)[i]) by {
            if i < t.len() - n {
                assert(t.skip(n)[i] == s.skip(n)[i]);
            }
        }
    } else {
        assert(s =~= s.take(s.len() as int));
    }
}

/// `middle` is the text without the white space around it: there is nothing but that before
/// and behind it, and it neither begins nor ends with any.
pub open spec fn is_core(s: Seq<char>, middle: Seq<char>) -> bool {
    &&& exists|a: Seq<char>, b: Seq<char>|
        is_blank(a) && is_blank(b) && s == #[trigger] (a + middle + b)
    &&& middle.len() > 0 ==> !is_space(middle[0]) && !is_space(middle.last())
}

/// What remains of a text is without white space at its ends.
pub proof fn lemma_trim_is_core(s: Seq<char>)
    ensures
        is_core(s, trim_text(s)),
{
    let t = trim_start(s);
    lemma_trim_start(s);
    lemma_trim_end(t);
    let a = s.take(s.len() - t.len());
    let b = t.skip(trim_end(t).len() as int);
    assert(s =~= a + trim_text(s) + b);
    if trim_text(s).len() > 0 {
        assert(trim_text(s)[0] == t[0]);
    }
}

/// There is only one such text.
pub proof fn lemma_core_is_unique(s: Seq<char>, x: Seq<char>, y: Seq<char>)
    requires
        is_core(s, x),
        is_core(s, y),
    ensures
        x == y,
{
    let (a, b) = choose|a: Seq<char>, b: Seq<char>|
        is_blank(a) && is_blank(b) && s == #[trigger] (a + x + b);
    let (c, d) = choose|c: Seq<char>, d: Seq<char>|
        is_blank(c) && is_blank(d) && s == #[trigger] (c + y + d);
    let n = s.len() as int;
    if x.len() == 0 {
        if y.len() > 0 {
            let i = c.len() as int;
            assert(s[i] == y[0]);
            if i < a.len() {
                assert(is_space(a[i]));
            } else {
                assert(is_space(b[i - a.len()]));
            }
        }
        assert(x =~= y);
    } else if y.len() == 0 {
        let i = a.len() as int;
        assert(s[i] == x[0]);
        if i < c.len() {
            assert(is_space(c[i]));
        } else {
            assert(is_space(d[i - c.len()]));
        }
    } else {
        assert(s[a.len() as int] == x[0]);
        assert(s[c.len() as int] == y[0]);
        assert(s[a.len() + x.len() - 1] == x.last());
        assert(s[c.len() + y.len() - 1] == y.last());
        if a.len() < c.len() {
            assert(is_space(c[a.len() as int]));
        }
        if c.len() < a.len() {
            assert(is_space(a[c.len() as int]));
        }
        if b.len() < d.len() {
            let i = a.len() + x.len() - 1;
            assert(s[i] == d[i - (n - d.len())]);
            assert(is_space(d[i - (n - d.len())]));
        }
        if d.len() < b.len() {
            let i = c.len() + y.len() - 1;
            assert(s[i] == b[i - (n - b.len())]);
            assert(is_space(b[i - (n - b.len())]));
        }
        assert(x =~= s.subrange(a.len() as int, n - b.len()));
        assert(y =~= s.subrange(c.len() as int, n - d.len()));
    }
}

/// Trimming takes away the white space at both ends, all of it and nothing else.
pub proof fn law_trimmed(s: &str, r: String)
    requires
        call_ensures(trimmed, (s,), r),
    ensures
        is_core(s@, r@),
        forall|m: Seq<char>| #[trigger] is_core(s@, m) ==> m == r@,
{
    lemma_trim_is_core(s@);
    assert forall|m: Seq<char>| #[trigger] is_core(s@, m) implies m == r@ by {
        lemma_core_is_unique(s@, m, r@);
    }
}

/// Up to the first occurrence of a character: it is not in what is cut out, and stands right
/// behind it, unless it stands nowhere.
pub proof fn law_before_first(s: &str, c: char, r: String)
    requires
        call_ensures(before_first, (s, c), r),
    ensures
        forall|i: int| 0 <= i < r@.len() ==> r@[i] != c,
        r@ == s@ || exists|rest: Seq<char>| s@ == #[trigger] (r@.push(c) + rest),
{
    lemma_first_of(s@, c);
    let k = first_of(s@, c);
    if k < s@.len() {
        assert(s@ =~= r@.push(c) + s@.skip(k + 1));
    } else {
        assert(r@ =~= s@);
    }
}

/// The texts are the same up to `k`, and there the first ends or has the smaller character.
pub open spec fn first_at(a: Seq<char>, b: Seq<char>, k: int) -> bool {
    &&& 0 <= k <= a.len()
    &&& k < b.len()
    &&& forall|i: int| 0 <= i < k ==> a[i] == b[i]
    &&& k < a.len() ==> (a[k] as int) < (b[k] as int)
}

/// The first text comes before the second, as in a dictionary.
pub open spec fn comes_first(a: Seq<char>, b: Seq<char>) -> bool {
    exists|k: int| #[trigger] first_at(a, b, k)
}

/// The order on texts is that of a dictionary.
pub proof fn lemma_lt_decides(a: Seq<char>, b: Seq<char>)
    ensures
        text_lt(a, b) <==> comes_first(a, b),
        !text_lt(a, b) ==> forall|k: int| !#[trigger] first_at(a, b, k),
    decreases a.len(),
{
    if b.len() > 0 {
        if a.len() == 0 {
            assert(first_at(a, b, 0));
        } else if a[0] != b[0] {
            if a[0] < b[0] {
                assert(first_at(a, b, 0));
            } else {
                assert forall|k: int| !#[trigger] first_at(a, b, k) by {
                    if first_at(a, b, k) {
                        if k > 0 {
                            assert(a[0] == b[0]);
                        }
                    }
                }
            }
        } else {
            let x = a.drop_first();
            let y = b.drop_first();
            lemma_lt_decides(x, y);
            if text_lt(a, b) {
                let k = choose|k: int| #[trigger] first_at(x, y, k);
                assert forall|i: int| 0 <= i < k + 1 implies a[i] == b[i] by {
                    if i > 0 {
                        assert(x[i - 1] == y[i - 1]);
                    }
                }
                if k + 1 < a.len() {
                    assert(x[k] == a[k + 1]);
                    assert(y[k] == b[k + 1]);
                }
                assert(first_at(a, b, k + 1));
            } else {
                assert forall|k: int| !#[trigger] first_at(a, b, k) by {
                    if first_at(a, b, k) {
                        assert(k > 0);
                        assert forall|i: int| 0 <= i < k - 1 implies x[i] == y[i] by {
                            assert(a[i + 1] == b[i + 1]);
                        }
                        assert(first_at(x, y, k - 1));
                    }
                }
            }
        }
    }
}

/// Texts are ordered as in a dictionary, by the code points of their characters.
pub proof fn law_text_order(a: &str, b: &str, r: bool)
    requires
        call_ensures(text_before, (a, b), r),
    ensures
        r <==> comes_first(a@, b@),
{
    lemma_lt_decides(a@, b@);
}

/// The number that decimal digits stand for.
pub open spec fn number_in(digits: Seq<char>) -> nat
    decreases digits.len(),
{
    if digits.len() == 0 {
        0
    } else {
        number_in(digits.drop_last()) * 10 + (digits.last() as int - 48) as nat
    }
}

/// A number is written so that it can be read again: in digits, without a zero in front.
pub proof fn lemma_decimal_reads_back(n: nat)
    ensures
        decimal(n).len() >= 1,
        number_in(decimal(n)) == n,
        forall|i: int| 0 <= i < decimal(n).len() ==> 48 <= (#[trigger] decimal(n)[i]) as int <= 57,
        n > 0 ==> decimal(n)[0] as int != 48,
    decreases n,
{
    reveal_with_fuel(number_in, 2);
    if n >= 10 {
        lemma_decimal_reads_back(n / 10);
        let d = decimal(n);
        assert(d.drop_last() =~= decimal(n / 10));
        assert(d[0] == decimal(n / 10)[0]);
    } else {
        assert(decimal(n).drop_last() =~= Seq::<char>::empty());
    }
}

/// A number is written in decimal digits that stand for it, and without a zero in front.
pub proof fn law_decimal_text(n: u64, r: String)
    requires
        call_ensures(decimal_text, (n,), r),
    ensures
        number_in(r@) == n,
        r@.len() >= 1,
        forall|i: int| 0 <= i < r@.len() ==> 48 <= (#[trigger] r@[i]) as int <= 57,
        r@.len() > 1 ==> r@[0] as int != 48,
{
    lemma_decimal_reads_back(n as nat);
    if n == 0 {
        assert(decimal(0).len() == 1);
    }
}

/// The lines of a text that begins with a line and its end are that line and the lines of
/// the rest. A carriage return before the end belongs to the end.
pub proof fn lemma_first_line(line: Seq<char>, rest: Seq<char>)
    requires
        !line.contains('\n'),
    ensures
        line.len() == 0 || line.last() != '\r' ==> lines_of(line.push('\n') + rest) == seq![line]
            + lines_of(rest),
        lines_of(line.push('\r').push('\n') + rest) == seq![line] + lines_of(rest),
        line.len() > 0 ==> lines_of(line) == seq![line],
{
    let s = line.push('\n') + rest;
    let k = line.len() as int;
    assert(s[k] == '\n');
    assert forall|i: int| 0 <= i < k implies s[i] != '\n' by {
        assert(line.contains(line[i]));
        assert(s[i] == line[i]);
    }
    lemma_first_of_is(s, '\n', k);
    assert(s.take(k) =~= line);
    assert(s.skip(k + 1) =~= rest);
    if line.len() > 0 {
        lemma_first_of(line, '\n');
        let j = first_of(line, '\n');
        if 0 <= j < line.len() {
            assert(line.contains(line[j]));
        }
    }
    let t = line.push('\r').push('\n') + rest;
    assert(t[k + 1] == '\n');
    assert forall|i: int| 0 <= i < k + 1 implies t[i] != '\n' by {
        if i < k {
            assert(line.contains(line[i]));
            assert(t[i] == line[i]);
        }
    }
    lemma_first_of_is(t, '\n', k + 1);
    assert(t.take(k + 1) =~= line.push('\r'));
    assert(without_return(line.push('\r')) =~= line);
    assert(t.skip(k + 2) =~= rest);
}

/// Lines are what stands between line ends. Each line end ends one line, also an empty one,
/// what stands behind the last line end is a line if it is not empty, and an empty text has
/// none.
pub proof fn law_split_lines(line: Seq<char>, s: &str, r: Vec<String>, rest: &str, others: Vec<
    String,
>)
    requires
        !line.contains('\n'),
        call_ensures(split_lines, (s,), r),
        call_ensures(split_lines, (rest,), others),
    ensures
        s@.len() == 0 ==> r@.len() == 0,
        s@ == line && line.len() > 0 ==> r@.len() == 1 && r@[0]@ == line,
        (s@ == line.push('\n') + rest@ && (line.len() == 0 || line.last() != '\r')) || s@
            == line.push('\r').push('\n') + rest@ ==> {
            &&& r@.len() == 1 + others@.len()
            &&& r@[0]@ == line
            &&& forall|i: int| 0 <= i < others@.len() ==> r@[i + 1]@ == (#[trigger] others@[i])@
        },
{
    lemma_first_line(line, rest@);
    let got = texts(r@);
    let more = texts(others@);
    assert(got.len() == r@.len());
    assert(more.len() == others@.len());
    if s@ == line && line.len() > 0 {
        assert(got[0] == r@[0]@);
    }
    if (s@ == line.push('\n') + rest@ && (line.len() == 0 || line.last() != '\r')) || s@
        == line.push('\r').push('\n') + rest@ {
        assert(got == seq![line] + more);
        assert(got[0] == r@[0]@);
        assert forall|i: int| 0 <= i < others@.len() implies r@[i + 1]@ == (
        #[trigger] others@[i])@ by {
            assert(got[i + 1] == more[i]);
        }
    }
}

/// Joining what was joined in two parts is joining all of it.
pub proof fn lemma_joined_in_parts(a: Seq<Seq<char>>, b: Seq<Seq<char>>, sep: Seq<char>)
    requires
        a.len() > 0,
        b.len() > 0,
    ensures
        joined(a + b, sep) == joined(a, sep) + sep + joined(b, sep),
    decreases b.len(),
{
    let s = a + b;
    assert(s.last() == b.last());
    if b.len() == 1 {
        assert(s.drop_last() =~= a);
        assert(joined(b, sep) == b[0]);
    } else {
        assert(s.drop_last() =~= a + b.drop_last());
        lemma_joined_in_parts(a, b.drop_last(), sep);
        assert(joined(s, sep) =~= joined(a, sep) + sep + joined(b, sep));
    }
}

/// Texts are joined with a separator between any two neighbours and nowhere else: of none
/// comes nothing, of one comes that one, and of two lists comes the first, the separator and
/// the second.
pub proof fn law_join_texts(
    all: &Vec<String>,
    sep: &str,
    r: String,
    first: &Vec<String>,
    x: String,
    second: &Vec<String>,
    y: String,
)
    requires
        call_ensures(join_texts, (all, sep), r),
        call_ensures(join_texts, (first, sep), x),
        call_ensures(join_texts, (second, sep), y),
    ensures
        all@.len() == 0 ==> r@.len() == 0,
        all@.len() == 1 ==> r@ == all@[0]@,
        first@.len() > 0 && second@.len() > 0 && all@ == first@ + second@ ==> r@ == x@ + sep@ + y@,
{
    if all@.len() == 1 {
        assert(texts(all@)[0] == all@[0]@);
    }
    if first@.len() > 0 && second@.len() > 0 && all@ == first@ + second@ {
        assert(texts(all@) =~= texts(first@) + texts(second@));
        lemma_joined_in_parts(texts(first@), texts(second@), sep@);
    }
}

/// Text that was written as UTF-8 is read as that text.
pub proof fn law_read_text(bytes: &[u8], t: Seq<char>, r: String)
    requires
        call_ensures(read_text, (bytes,), r),
        bytes@ == encode_utf8(t),
    ensures
        r@ == t,
{
    lemma_text_reads_back(t);
}

/// The value of a hexadecimal digit.
pub open spec fn digit_in(c: char) -> int {
    let n = c as int;
    if 48 <= n <= 57 {
        n - 48
    } else if 97 <= n <= 102 {
        n - 87
    } else {
        -1
    }
}

/// The digits at place `i` are those of the byte `b`, the higher half first.
pub open spec fn shows_byte(text: Seq<char>, i: int, b: u8) -> bool {
    let high = digit_in(text[2 * i]);
    let low = digit_in(text[2 * i + 1]);
    0 <= high < 16 && 0 <= low < 16 && b == high * 16 + low
}

/// The text gives the bytes in hexadecimal digits, two for each.
pub open spec fn shows_bytes(text: Seq<char>, bytes: Seq<u8>) -> bool {
    &&& text.len() == 2 * bytes.len()
    &&& forall|i: int| 0 <= i < bytes.len() ==> shows_byte(text, i, #[trigger] bytes[i])
}

proof fn lemma_hex_reads_back(bytes: Seq<u8>)
    ensures
        shows_bytes(hex_text(bytes), bytes),
    decreases bytes.len(),
{
    if bytes.len() > 0 {
        let p = bytes.drop_last();
        lemma_hex_reads_back(p);
        let t = hex_text(bytes);
        let n = bytes.len() - 1;
        assert forall|i: int| 0 <= i < bytes.len() implies shows_byte(t, i, #[trigger] bytes[i]) by {
            if i < n {
                assert(p[i] == bytes[i]);
                assert(shows_byte(hex_text(p), i, p[i]));
                assert(t[2 * i] == hex_text(p)[2 * i]);
                assert(t[2 * i + 1] == hex_text(p)[2 * i + 1]);
            }
        }
    }
}

/// Bytes are written as two hexadecimal digits each, with small letters, the higher half
/// first.
pub proof fn law_to_hex(bytes: &Vec<u8>, r: String)
    requires
        call_ensures(to_hex, (bytes,), r),
    ensures
        shows_bytes(r@, bytes@),
{
    lemma_hex_reads_back(bytes@);
}

/// The hash of a file is the SHA-256 digest of its content, in hexadecimal digits. Two files
/// have the same hash exactly if they have the same digest.
pub proof fn law_sha256_file(a: &[u8], x: String, b: &[u8], y: String)
    requires
        call_ensures(sha256_file, (a,), x),
        call_ensures(sha256_file, (b,), y),
    ensures
        shows_bytes(x@, sha256(a@)),
        x@ == y@ <==> sha256(a@) == sha256(b@),
{
    lemma_hex_reads_back(sha256(a@));
    lemma_hex_reads_back(sha256(b@));
    if x@ == y@ {
        lemma_hex_text_injective(sha256(a@), sha256(b@));
    }
}

} // verus!

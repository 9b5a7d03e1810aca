//! Character-level helpers: JSON string escaping, decimal rendering and
//! parsing, and the bridge from raw bytes to `String`.

use crate::json::{is_digit_char, wf_str_chars};
use vstd::prelude::*;

verus! {

broadcast use vstd::seq::group_seq_axioms;

/// The decimal digit character for `n` (0 through 9).
pub open spec fn digit_char(n: int) -> char {
    if n == 0 {
        '0'
    } else if n == 1 {
        '1'
    } else if n == 2 {
        '2'
    } else if n == 3 {
        '3'
    } else if n == 4 {
        '4'
    } else if n == 5 {
        '5'
    } else if n == 6 {
        '6'
    } else if n == 7 {
        '7'
    } else if n == 8 {
        '8'
    } else {
        '9'
    }
}

/// Decimal representation of `n`, most significant digit first.
pub open spec fn dec_digits(n: nat) -> Seq<char>
    decreases n,
{
    if n < 10 {
        seq![digit_char(n as int)]
    } else {
        dec_digits(n / 10).push(digit_char((n % 10) as int))
    }
}

/// Appends one decimal digit (`n` must be 0 through 9) to `out`.
fn append_digit(n: u32, out: &mut String)
    requires
        n < 10,
    ensures
        final(out)@ == old(out)@ + seq![digit_char(n as int)],
{
    broadcast use vstd::string::group_string_axioms;

    if n == 0 {
        out.append("0");
        proof { reveal_strlit("0"); assert(out@ =~= old(out)@ + seq![digit_char(n as int)]); }
    } else if n == 1 {
        out.append("1");
        proof { reveal_strlit("1"); assert(out@ =~= old(out)@ + seq![digit_char(n as int)]); }
    } else if n == 2 {
        out.append("2");
        proof { reveal_strlit("2"); assert(out@ =~= old(out)@ + seq![digit_char(n as int)]); }
    } else if n == 3 {
        out.append("3");
        proof { reveal_strlit("3"); assert(out@ =~= old(out)@ + seq![digit_char(n as int)]); }
    } else if n == 4 {
        out.append("4");
        proof { reveal_strlit("4"); assert(out@ =~= old(out)@ + seq![digit_char(n as int)]); }
    } else if n == 5 {
        out.append("5");
        proof { reveal_strlit("5"); assert(out@ =~= old(out)@ + seq![digit_char(n as int)]); }
    } else if n == 6 {
        out.append("6");
        proof { reveal_strlit("6"); assert(out@ =~= old(out)@ + seq![digit_char(n as int)]); }
    } else if n == 7 {
        out.append("7");
        proof { reveal_strlit("7"); assert(out@ =~= old(out)@ + seq![digit_char(n as int)]); }
    } else if n == 8 {
        out.append("8");
        proof { reveal_strlit("8"); assert(out@ =~= old(out)@ + seq![digit_char(n as int)]); }
    } else {
        out.append("9");
        proof { reveal_strlit("9"); assert(out@ =~= old(out)@ + seq![digit_char(n as int)]); }
    }
}

fn write_u32(n: u32, out: &mut String)
    ensures
        final(out)@ == old(out)@ + dec_digits(n as nat),
    decreases n,
{
    if n < 10 {
        append_digit(n, out);
    } else {
        write_u32(n / 10, out);
        append_digit(n % 10, out);
    }
}

/// Renders `n` in decimal.
pub fn u32_to_string(n: u32) -> (r: String)
    ensures
        r@ == dec_digits(n as nat),
{
    let mut out = String::new();
    write_u32(n, &mut out);
    proof {
        assert(out@ =~= dec_digits(n as nat));
    }
    out
}

fn write_u64(n: u64, out: &mut String)
    ensures
        final(out)@ == old(out)@ + dec_digits(n as nat),
    decreases n,
{
    if n < 10 {
        append_digit((n % 10) as u32, out);
    } else {
        write_u64(n / 10, out);
        append_digit((n % 10) as u32, out);
    }
}

/// Renders `n` in decimal.
pub fn u64_to_string(n: u64) -> (r: String)
    ensures
        r@ == dec_digits(n as nat),
{
    let mut out = String::new();
    write_u64(n, &mut out);
    proof {
        assert(out@ =~= dec_digits(n as nat));
    }
    out
}

/// Decimal representation of a signed value: a minus sign where negative.
pub open spec fn spec_i64_digits(n: int) -> Seq<char> {
    if n < 0 {
        seq!['-'] + dec_digits((-n) as nat)
    } else {
        dec_digits(n as nat)
    }
}

/// Renders `n` in decimal, minus sign included where negative.
pub fn i64_to_string(n: i64) -> (r: String)
    ensures
        r@ == spec_i64_digits(n as int),
{
    broadcast use vstd::string::group_string_axioms;

    let mut out = String::new();
    if n < 0 {
        out.append("-");
        proof {
            reveal_strlit("-");
        }
        let mag: u64 = if n == i64::MIN {
            9223372036854775808u64
        } else {
            (-n) as u64
        };
        proof {
            assert(mag as nat == (-(n as int)) as nat);
        }
        write_u64(mag, &mut out);
        proof {
            assert(out@ =~= spec_i64_digits(n as int));
        }
    } else {
        write_u64(n as u64, &mut out);
        proof {
            assert(out@ =~= spec_i64_digits(n as int));
        }
    }
    out
}

/// Every decimal representation is a well-formed number token.
pub proof fn lemma_dec_digits_wf(n: nat)
    ensures
        crate::json::wf_num_chars(dec_digits(n)),
    decreases n,
{
    if n >= 10 {
        lemma_dec_digits_wf(n / 10);
    }
}

/// The numeric value of a digit string, or nothing if `s` is empty or holds
/// a non-digit.
pub open spec fn digits_val(s: Seq<char>) -> nat
    decreases s.len(),
{
    if s.len() == 0 {
        0
    } else {
        digits_val(s.drop_last()) * 10 + (if is_digit_char(s.last()) {
            (s.last() as int - '0' as int) as nat
        } else {
            0
        })
    }
}

pub open spec fn all_digits(s: Seq<char>) -> bool {
    forall|i: int| 0 <= i < s.len() ==> is_digit_char(#[trigger] s[i])
}

proof fn lemma_digits_val_step(s: Seq<char>, i: int)
    requires
        0 <= i < s.len(),
    ensures
        digits_val(s.take(i + 1)) == digits_val(s.take(i)) * 10 + (if is_digit_char(s[i]) {
            (s[i] as int - '0' as int) as nat
        } else {
            0
        }),
{
    assert(s.take(i + 1).drop_last() =~= s.take(i));
    assert(s.take(i + 1).last() == s[i]);
}

proof fn lemma_digits_val_monotone(s: Seq<char>, i: int)
    requires
        0 <= i <= s.len(),
    ensures
        digits_val(s.take(i)) <= digits_val(s),
    decreases s.len() - i,
{
    if i < s.len() {
        lemma_digits_val_step(s, i);
        lemma_digits_val_monotone(s, i + 1);
    } else {
        assert(s.take(i) =~= s);
    }
}

/// Parses a non-empty all-digit string as a `u32`.
pub fn parse_u32(s: &str) -> (r: Option<u32>)
    ensures
        r matches Some(v) ==> s@.len() > 0 && all_digits(s@) && digits_val(s@) == v as nat,
        r is None ==> s@.len() == 0 || !all_digits(s@) || digits_val(s@) > u32::MAX,
{
    let n = s.unicode_len();
    if n == 0 {
        return None;
    }
    let mut val: u32 = 0;
    let mut i: usize = 0;
    while i < n
        invariant
            n == s@.len(),
            0 <= i <= n,
            all_digits(s@.take(i as int)),
            val as nat == digits_val(s@.take(i as int)),
        decreases n - i,
    {
        let c = s.get_char(i);
        if !('0' <= c && c <= '9') {
            proof {
                assert(s@[i as int] == c);
                assert(!is_digit_char(c));
            }
            return None;
        }
        let d: u32 = (c as u32) - ('0' as u32);
        proof {
            lemma_digits_val_step(s@, i as int);
        }
        if val > (u32::MAX - d) / 10 {
            proof {
                assert(digits_val(s@.take(i as int + 1)) > u32::MAX) by {
                    assert(val as nat * 10 + d as nat > u32::MAX) by (nonlinear_arith)
                        requires
                            val > (u32::MAX - d) / 10,
                            d < 10,
                    ;
                }
                lemma_digits_val_monotone(s@, i as int + 1);
            }
            return None;
        }
        proof {
            assert(val as nat * 10 + d as nat <= u32::MAX) by (nonlinear_arith)
                requires
                    val <= (u32::MAX - d) / 10,
                    d < 10,
            ;
        }
        val = val * 10 + d;
        i = i + 1;
        proof {
            assert(all_digits(s@.take(i as int)));
        }
    }
    proof {
        assert(s@.take(n as int) =~= s@);
    }
    Some(val)
}

/// How one character is written inside a JSON string.
pub open spec fn esc_char(c: char) -> Seq<char> {
    if c == '"' {
        seq!['\\', '"']
    } else if c == '\\' {
        seq!['\\', '\\']
    } else if c == '\n' {
        seq!['\\', 'n']
    } else if c == '\r' {
        seq!['\\', 'r']
    } else if c == '\t' {
        seq!['\\', 't']
    } else if (c as u32) < 32 {
        seq!['\\', 'u', '0', '0', digit_char(((c as u32) / 16) as int), hex_digit_char(
            ((c as u32) % 16) as int,
        )]
    } else {
        seq![c]
    }
}

/// The hexadecimal digit character for `n` (0 through 15).
pub open spec fn hex_digit_char(n: int) -> char {
    if n < 10 {
        digit_char(n)
    } else if n == 10 {
        'a'
    } else if n == 11 {
        'b'
    } else if n == 12 {
        'c'
    } else if n == 13 {
        'd'
    } else if n == 14 {
        'e'
    } else {
        'f'
    }
}

/// The escaped form of the first `i` characters of `s`.
pub open spec fn escape_upto(s: Seq<char>, i: int) -> Seq<char>
    decreases i,
{
    if i <= 0 || s.len() < i {
        Seq::empty()
    } else {
        escape_upto(s, i - 1) + esc_char(s[i - 1])
    }
}

/// The escaped form of `s`: what stands between the quotes when `s` is
/// written as a JSON string.
pub open spec fn escape_chars(s: Seq<char>) -> Seq<char> {
    escape_upto(s, s.len() as int)
}

proof fn lemma_wf_str_concat(a: Seq<char>, b: Seq<char>)
    requires
        wf_str_chars(a),
        wf_str_chars(b),
    ensures
        wf_str_chars(a + b),
    decreases a.len(),
{
    if a.len() == 0 {
        assert(a + b =~= b);
    } else if a[0] == '\\' {
        assert((a + b).skip(2) =~= a.skip(2) + b);
        lemma_wf_str_concat(a.skip(2), b);
    } else {
        assert((a + b).skip(1) =~= a.skip(1) + b);
        lemma_wf_str_concat(a.skip(1), b);
    }
}

proof fn lemma_esc_char_wf(c: char)
    ensures
        wf_str_chars(esc_char(c)),
{
    reveal_with_fuel(wf_str_chars, 8);
    let e = esc_char(c);
    if c == '"' || c == '\\' || c == '\n' || c == '\r' || c == '\t' {
        assert(e.skip(2) =~= Seq::<char>::empty());
    } else if (c as u32) < 32 {
        assert(e.skip(2) =~= seq!['0', '0', digit_char(((c as u32) / 16) as int), hex_digit_char(
            ((c as u32) % 16) as int,
        )]);
        let t = e.skip(2);
        assert(wf_str_chars(t)) by {
            assert(t.skip(1) =~= t.subrange(1, 4));
            assert(t.subrange(1, 4).skip(1) =~= t.subrange(2, 4));
            assert(t.subrange(2, 4).skip(1) =~= t.subrange(3, 4));
            assert(t.subrange(3, 4).skip(1) =~= Seq::<char>::empty());
        }
    } else {
        assert(e.skip(1) =~= Seq::<char>::empty());
    }
}

/// The escaped form of any text is well-formed raw string content.
pub proof fn lemma_escape_wf(s: Seq<char>, i: int)
    requires
        0 <= i <= s.len(),
    ensures
        wf_str_chars(escape_upto(s, i)),
    decreases i,
{
    if i > 0 {
        lemma_escape_wf(s, i - 1);
        lemma_esc_char_wf(s[i - 1]);
        lemma_wf_str_concat(escape_upto(s, i - 1), esc_char(s[i - 1]));
    }
}

fn append_escaped_char(c: char, s: &str, i: usize, out: &mut String)
    requires
        i < s@.len(),
        s@.len() <= usize::MAX,
        s@[i as int] == c,
    ensures
        final(out)@ == old(out)@ + esc_char(c),
{
    broadcast use vstd::string::group_string_axioms;

    if c == '"' {
        out.append("\\\"");
        proof { reveal_strlit("\\\""); assert(out@ =~= old(out)@ + esc_char(c)); }
    } else if c == '\\' {
        out.append("\\\\");
        proof { reveal_strlit("\\\\"); assert(out@ =~= old(out)@ + esc_char(c)); }
    } else if c == '\n' {
        out.append("\\n");
        proof { reveal_strlit("\\n"); assert(out@ =~= old(out)@ + esc_char(c)); }
    } else if c == '\r' {
        out.append("\\r");
        proof { reveal_strlit("\\r"); assert(out@ =~= old(out)@ + esc_char(c)); }
    } else if c == '\t' {
        out.append("\\t");
        proof { reveal_strlit("\\t"); assert(out@ =~= old(out)@ + esc_char(c)); }
    } else if (c as u32) < 32 {
        out.append("\\u00");
        proof { reveal_strlit("\\u00"); }
        let v = c as u32;
        append_digit(v / 16, out);
        let lo = v % 16;
        if lo < 10 {
            append_digit(lo, out);
        } else if lo == 10 {
            out.append("a");
            proof { reveal_strlit("a"); }
        } else if lo == 11 {
            out.append("b");
            proof { reveal_strlit("b"); }
        } else if lo == 12 {
            out.append("c");
            proof { reveal_strlit("c"); }
        } else if lo == 13 {
            out.append("d");
            proof { reveal_strlit("d"); }
        } else if lo == 14 {
            out.append("e");
            proof { reveal_strlit("e"); }
        } else {
            out.append("f");
            proof { reveal_strlit("f"); }
        }
        proof {
            assert(out@ =~= old(out)@ + esc_char(c));
        }
    } else {
        let piece = s.substring_char(i, i + 1);
        out.append(piece);
        proof {
            assert(piece@ =~= seq![c]);
            assert(out@ =~= old(out)@ + esc_char(c));
        }
    }
}

/// Escapes free text for embedding in a JSON string.
pub fn escape_text(s: &str) -> (r: String)
    ensures
        r@ == escape_chars(s@),
        wf_str_chars(r@),
{
    let n = s.unicode_len();
    let mut out = String::new();
    let mut i: usize = 0;
    while i < n
        invariant
            n == s@.len(),
            0 <= i <= n,
            out@ == escape_upto(s@, i as int),
        decreases n - i,
    {
        let c = s.get_char(i);
        append_escaped_char(c, s, i, &mut out);
        i = i + 1;
    }
    proof {
        lemma_escape_wf(s@, s@.len() as int);
    }
    out
}


/// The Unicode whitespace characters, as `str::trim` removes them.
pub open spec fn is_ws_char(c: char) -> bool {
    let v = c as u32;
    ||| (9 <= v && v <= 13)
    ||| v == 32
    ||| v == 0x85
    ||| v == 0xA0
    ||| v == 0x1680
    ||| (0x2000 <= v && v <= 0x200A)
    ||| v == 0x2028
    ||| v == 0x2029
    ||| v == 0x202F
    ||| v == 0x205F
    ||| v == 0x3000
}

/// Whether `c` is Unicode whitespace.
pub fn is_ws_char_exec(c: char) -> (r: bool)
    ensures
        r == is_ws_char(c),
{
    let v = c as u32;
    (9 <= v && v <= 13) || v == 32 || v == 0x85 || v == 0xA0 || v == 0x1680 || (0x2000 <= v
        && v <= 0x200A) || v == 0x2028 || v == 0x2029 || v == 0x202F || v == 0x205F
        || v == 0x3000
}

/// Raw string content that shows no visible text: whitespace characters
/// and escaped whitespace only.
pub open spec fn raw_blank(s: Seq<char>) -> bool
    decreases s.len(),
{
    if s.len() == 0 {
        true
    } else if s[0] == '\\' {
        s.len() >= 2 && (s[1] == 'n' || s[1] == 'r' || s[1] == 't') && raw_blank(s.skip(2))
    } else {
        is_ws_char(s[0]) && raw_blank(s.skip(1))
    }
}

fn is_raw_blank_from(s: &str, n: usize, i: usize) -> (r: bool)
    requires
        n == s@.len(),
        i <= n,
    ensures
        r == raw_blank(s@.skip(i as int)),
    decreases n - i,
{
    if i >= n {
        proof {
            assert(s@.skip(i as int) =~= Seq::<char>::empty());
        }
        return true;
    }
    proof {
        assert(s@.skip(i as int)[0] == s@[i as int]);
    }
    let c = s.get_char(i);
    if c == '\\' {
        if i + 1 < n {
            proof {
                assert(s@.skip(i as int)[1] == s@[i as int + 1]);
                assert(s@.skip(i as int).skip(2) =~= s@.skip(i as int + 2));
            }
            let c2 = s.get_char(i + 1);
            if c2 == 'n' || c2 == 'r' || c2 == 't' {
                is_raw_blank_from(s, n, i + 2)
            } else {
                false
            }
        } else {
            false
        }
    } else if is_ws_char_exec(c) {
        proof {
            assert(s@.skip(i as int).skip(1) =~= s@.skip(i as int + 1));
        }
        is_raw_blank_from(s, n, i + 1)
    } else {
        false
    }
}

/// Whether raw string content shows no visible text.
pub fn is_raw_blank(s: &str) -> (r: bool)
    ensures
        r == raw_blank(s@),
{
    let n = s.unicode_len();
    let r = is_raw_blank_from(s, n, 0);
    proof {
        assert(s@.skip(0) =~= s@);
    }
    r
}

fn is_wf_str_from(s: &str, n: usize, i: usize) -> (r: bool)
    requires
        n == s@.len(),
        i <= n,
    ensures
        r == wf_str_chars(s@.skip(i as int)),
    decreases n - i,
{
    if i >= n {
        proof {
            assert(s@.skip(i as int) =~= Seq::<char>::empty());
        }
        return true;
    }
    proof {
        assert(s@.skip(i as int)[0] == s@[i as int]);
    }
    let c = s.get_char(i);
    if c == '\\' {
        if i + 1 < n {
            proof {
                assert(s@.skip(i as int)[1] == s@[i as int + 1]);
                assert(s@.skip(i as int).skip(2) =~= s@.skip(i as int + 2));
            }
            let c2 = s.get_char(i + 1);
            if (c2 as u32) >= 32 {
                is_wf_str_from(s, n, i + 2)
            } else {
                false
            }
        } else {
            false
        }
    } else if c != '"' && (c as u32) >= 32 {
        proof {
            assert(s@.skip(i as int).skip(1) =~= s@.skip(i as int + 1));
        }
        is_wf_str_from(s, n, i + 1)
    } else {
        false
    }
}

/// Whether a string can stand as raw JSON string content as it is.
pub fn is_wf_str(s: &str) -> (r: bool)
    ensures
        r == wf_str_chars(s@),
{
    let n = s.unicode_len();
    let r = is_wf_str_from(s, n, 0);
    proof {
        assert(s@.skip(0) =~= s@);
    }
    r
}

/// Compares two string slices character by character.
pub fn str_eq(a: &str, b: &str) -> (r: bool)
    ensures
        r == (a@ == b@),
{
    let na = a.unicode_len();
    let nb = b.unicode_len();
    if na != nb {
        return false;
    }
    let mut i: usize = 0;
    while i < na
        invariant
            na == a@.len(),
            nb == b@.len(),
            na == nb,
            0 <= i <= na,
            forall|k: int| 0 <= k < i ==> a@[k] == b@[k],
        decreases na - i,
    {
        if a.get_char(i) != b.get_char(i) {
            return false;
        }
        i = i + 1;
    }
    proof {
        assert(a@ =~= b@);
    }
    true
}

/// Relies on `String::from_utf8`: succeeds exactly on valid UTF-8 input and
/// returns a string of those very bytes.
#[verifier::external_body]
pub fn string_from_utf8(v: Vec<u8>) -> (r: Option<String>)
    ensures
        r is Some <==> vstd::utf8::valid_utf8(v@),
        r matches Some(s) ==> vstd::utf8::encode_utf8(s@) == v@,
{
    String::from_utf8(v).ok()
}

} // verus!

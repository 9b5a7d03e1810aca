//! A JSON text parser over bytes.
//!
//! The specification functions here define the wire format; the executable
//! functions return exactly what the specification says. String and number
//! payloads come out raw, as [`crate::json`] models them: escape sequences
//! are kept intact, so content can be re-emitted unchanged.

use crate::json::{JsonV, JsonValue};
use crate::text::string_from_utf8;
use vstd::prelude::*;
use vstd::slice::{slice_subrange, slice_to_vec};
use vstd::utf8::{decode_utf8, valid_utf8};

verus! {

broadcast use vstd::seq::group_seq_axioms, vstd::std_specs::vec::group_vec_axioms;

pub open spec fn is_ws_byte(b: u8) -> bool {
    b == 32 || b == 9 || b == 10 || b == 13
}

pub open spec fn is_digit_byte(b: u8) -> bool {
    48 <= b <= 57
}

pub open spec fn is_number_byte(b: u8) -> bool {
    is_digit_byte(b) || b == 45 || b == 43 || b == 46 || b == 101 || b == 69
}

/// The first index at or after `i` that holds a non-whitespace byte, or the
/// end of the input.
pub open spec fn spec_skip_ws(s: Seq<u8>, i: int) -> int
    decreases s.len() - i,
{
    if 0 <= i < s.len() && is_ws_byte(s[i]) {
        spec_skip_ws(s, i + 1)
    } else {
        i
    }
}

pub broadcast proof fn lemma_skip_ws_bounds(s: Seq<u8>, i: int)
    ensures
        0 <= i <= s.len() ==> i <= #[trigger] spec_skip_ws(s, i) <= s.len(),
    decreases s.len() - i,
{
    if 0 <= i < s.len() && is_ws_byte(s[i]) {
        lemma_skip_ws_bounds(s, i + 1);
    }
}

/// Advances past whitespace.
pub fn skip_ws(s: &[u8], i: usize) -> (r: usize)
    requires
        i <= s@.len(),
    ensures
        r == spec_skip_ws(s@, i as int),
        i <= r <= s@.len(),
    decreases s@.len() - i,
{
    if i < s.len() {
        let b = s[i];
        if b == 32 || b == 9 || b == 10 || b == 13 {
            return skip_ws(s, i + 1);
        }
    }
    i
}

/// The index of the quote that closes a string whose content starts at `j`,
/// or nothing if the string is unterminated or holds a bare control byte.
pub open spec fn spec_scan_string(s: Seq<u8>, j: int) -> Option<int>
    decreases s.len() - j,
{
    if j < 0 || j >= s.len() {
        None
    } else if s[j] == 34 {
        Some(j)
    } else if s[j] == 92 {
        if j + 1 < s.len() && s[j + 1] >= 32 {
            spec_scan_string(s, j + 2)
        } else {
            None
        }
    } else if s[j] < 32 {
        None
    } else {
        spec_scan_string(s, j + 1)
    }
}

pub proof fn lemma_scan_string_bounds(s: Seq<u8>, j: int)
    requires
        0 <= j,
    ensures
        spec_scan_string(s, j) matches Some(e) ==> j <= e < s.len(),
    decreases s.len() - j,
{
    if 0 <= j < s.len() {
        if s[j] == 92 {
            if j + 1 < s.len() && s[j + 1] >= 32 {
                lemma_scan_string_bounds(s, j + 2);
            }
        } else if s[j] != 34 && s[j] >= 32 {
            lemma_scan_string_bounds(s, j + 1);
        }
    }
}

/// Finds the closing quote as [`spec_scan_string`] describes.
pub fn scan_string(s: &[u8], j: usize) -> (r: Option<usize>)
    requires
        j <= s@.len(),
    ensures
        match r {
            Some(e) => spec_scan_string(s@, j as int) == Some(e as int) && j <= e < s@.len(),
            None => spec_scan_string(s@, j as int) is None,
        },
    decreases s@.len() - j,
{
    if j >= s.len() {
        return None;
    }
    let b = s[j];
    if b == 34 {
        Some(j)
    } else if b == 92 {
        if j + 1 < s.len() && s[j + 1] >= 32 {
            scan_string(s, j + 2)
        } else {
            None
        }
    } else if b < 32 {
        None
    } else {
        scan_string(s, j + 1)
    }
}

/// The first index at or after `j` that holds a byte outside the number
/// alphabet, or the end of the input.
pub open spec fn spec_scan_number(s: Seq<u8>, j: int) -> int
    decreases s.len() - j,
{
    if 0 <= j < s.len() && is_number_byte(s[j]) {
        spec_scan_number(s, j + 1)
    } else {
        j
    }
}

pub proof fn lemma_scan_number_bounds(s: Seq<u8>, j: int)
    requires
        0 <= j <= s.len(),
    ensures
        j <= spec_scan_number(s, j) <= s.len(),
    decreases s.len() - j,
{
    if j < s.len() && is_number_byte(s[j]) {
        lemma_scan_number_bounds(s, j + 1);
    }
}

/// Advances past number bytes.
pub fn scan_number(s: &[u8], j: usize) -> (r: usize)
    requires
        j <= s@.len(),
    ensures
        r == spec_scan_number(s@, j as int),
        j <= r <= s@.len(),
    decreases s@.len() - j,
{
    if j < s.len() {
        let b = s[j];
        if (48 <= b && b <= 57) || b == 45 || b == 43 || b == 46 || b == 101 || b == 69 {
            return scan_number(s, j + 1);
        }
    }
    j
}

/// The string value starting at the quote at `i`, and the index after its
/// closing quote. The raw content must be valid UTF-8.
pub open spec fn spec_parse_string(s: Seq<u8>, i: int) -> Option<(Seq<char>, int)> {
    match spec_scan_string(s, i + 1) {
        Some(e) => {
            let frag = s.subrange(i + 1, e);
            if valid_utf8(frag) {
                Some((decode_utf8(frag), e + 1))
            } else {
                None
            }
        },
        None => None,
    }
}

/// Parses a string as [`spec_parse_string`] describes.
pub fn parse_string(s: &[u8], i: usize) -> (r: Option<(String, usize)>)
    requires
        i < s@.len(),
    ensures
        match r {
            Some((t, n)) => spec_parse_string(s@, i as int) == Some((t@, n as int)) && i < n
                <= s@.len(),
            None => spec_parse_string(s@, i as int) is None,
        },
{
    let n = s.len();
    let e = match scan_string(s, i + 1) {
        Some(e) => e,
        None => {
            return None;
        },
    };
    let frag = slice_subrange(s, i + 1, e);
    let bytes = slice_to_vec(frag);
    match string_from_utf8(bytes) {
        Some(t) => {
            proof {
                vstd::utf8::encode_utf8_decode_utf8(t@);
            }
            Some((t, e + 1))
        },
        None => None,
    }
}

/// The number token starting at `i`, and the index after it. The token must
/// be valid UTF-8, which plain number bytes always are.
pub open spec fn spec_parse_number(s: Seq<u8>, i: int) -> Option<(Seq<char>, int)> {
    let e = spec_scan_number(s, i);
    let frag = s.subrange(i, e);
    if e > i && valid_utf8(frag) {
        Some((decode_utf8(frag), e))
    } else {
        None
    }
}

/// Parses a number token as [`spec_parse_number`] describes.
pub fn parse_number(s: &[u8], i: usize) -> (r: Option<(String, usize)>)
    requires
        i < s@.len(),
    ensures
        match r {
            Some((t, n)) => spec_parse_number(s@, i as int) == Some((t@, n as int)) && i < n
                <= s@.len(),
            None => spec_parse_number(s@, i as int) is None,
        },
{
    let e = scan_number(s, i);
    if e <= i {
        return None;
    }
    let frag = slice_subrange(s, i, e);
    let bytes = slice_to_vec(frag);
    match string_from_utf8(bytes) {
        Some(t) => {
            proof {
                vstd::utf8::encode_utf8_decode_utf8(t@);
            }
            Some((t, e))
        },
        None => None,
    }
}

#[via_fn]
proof fn spec_parse_value_dec(s: Seq<u8>, i: int) {
    broadcast use lemma_skip_ws_bounds;

}

/// The JSON value starting at or after `i` (leading whitespace skipped),
/// and the index just past it.
pub open spec fn spec_parse_value(s: Seq<u8>, i: int) -> Option<(JsonV, int)>
    decreases s.len() - i, 0int,
    via spec_parse_value_dec
{
    let j = spec_skip_ws(s, i);
    if i < 0 || j >= s.len() {
        None
    } else {
        let b = s[j];
        if b == 123 {
            match spec_parse_obj_body(s, j + 1) {
                Some((es, n)) => Some((JsonV::Obj(es), n)),
                None => None,
            }
        } else if b == 91 {
            match spec_parse_arr_body(s, j + 1) {
                Some((vs, n)) => Some((JsonV::Arr(vs), n)),
                None => None,
            }
        } else if b == 34 {
            match spec_parse_string(s, j) {
                Some((t, n)) => Some((JsonV::Str(t), n)),
                None => None,
            }
        } else if b == 116 {
            if j + 4 <= s.len() && s[j + 1] == 114 && s[j + 2] == 117 && s[j + 3] == 101 {
                Some((JsonV::Bool(true), j + 4))
            } else {
                None
            }
        } else if b == 102 {
            if j + 5 <= s.len() && s[j + 1] == 97 && s[j + 2] == 108 && s[j + 3] == 115 && s[j
                + 4] == 101 {
                Some((JsonV::Bool(false), j + 5))
            } else {
                None
            }
        } else if b == 110 {
            if j + 4 <= s.len() && s[j + 1] == 117 && s[j + 2] == 108 && s[j + 3] == 108 {
                Some((JsonV::Null, j + 4))
            } else {
                None
            }
        } else if b == 45 || is_digit_byte(b) {
            match spec_parse_number(s, j) {
                Some((t, n)) => Some((JsonV::Num(t), n)),
                None => None,
            }
        } else {
            None
        }
    }
}

#[via_fn]
proof fn spec_parse_arr_body_dec(s: Seq<u8>, j: int) {
    broadcast use lemma_skip_ws_bounds;

}

/// The array elements starting at `j` (just inside the brackets), and the
/// index just past the closing bracket.
pub open spec fn spec_parse_arr_body(s: Seq<u8>, j: int) -> Option<(Seq<JsonV>, int)>
    decreases s.len() - j, 1int,
    via spec_parse_arr_body_dec
{
    let j2 = spec_skip_ws(s, j);
    if j < 0 || j2 >= s.len() {
        None
    } else if s[j2] == 93 {
        Some((Seq::empty(), j2 + 1))
    } else {
        match spec_parse_value(s, j2) {
            Some((v, n)) => {
                if n <= j || n > s.len() {
                    None
                } else {
                    let n2 = spec_skip_ws(s, n);
                    if n2 >= s.len() {
                        None
                    } else if s[n2] == 44 {
                        match spec_parse_arr_body(s, n2 + 1) {
                            Some((vs, m)) => Some((seq![v] + vs, m)),
                            None => None,
                        }
                    } else if s[n2] == 93 {
                        Some((seq![v], n2 + 1))
                    } else {
                        None
                    }
                }
            },
            None => None,
        }
    }
}

#[via_fn]
proof fn spec_parse_obj_body_dec(s: Seq<u8>, j: int) {
    broadcast use lemma_skip_ws_bounds;

}

/// The object entries starting at `j` (just inside the braces), and the
/// index just past the closing brace.
pub open spec fn spec_parse_obj_body(s: Seq<u8>, j: int) -> Option<
    (Seq<(Seq<char>, JsonV)>, int),
>
    decreases s.len() - j, 1int,
    via spec_parse_obj_body_dec
{
    let j2 = spec_skip_ws(s, j);
    if j < 0 || j2 >= s.len() {
        None
    } else if s[j2] == 125 {
        Some((Seq::empty(), j2 + 1))
    } else if s[j2] != 34 {
        None
    } else {
        match spec_parse_string(s, j2) {
            Some((k, n)) => {
                if n <= j || n > s.len() {
                    None
                } else {
                    let n2 = spec_skip_ws(s, n);
                    if n2 >= s.len() || s[n2] != 58 {
                        None
                    } else {
                        match spec_parse_value(s, n2 + 1) {
                            Some((v, m)) => {
                                if m <= j || m > s.len() {
                                    None
                                } else {
                                    let m2 = spec_skip_ws(s, m);
                                    if m2 >= s.len() {
                                        None
                                    } else if s[m2] == 44 {
                                        match spec_parse_obj_body(s, m2 + 1) {
                                            Some((es, p)) => Some((seq![(k, v)] + es, p)),
                                            None => None,
                                        }
                                    } else if s[m2] == 125 {
                                        Some((seq![(k, v)], m2 + 1))
                                    } else {
                                        None
                                    }
                                }
                            },
                            None => None,
                        }
                    }
                }
            },
            None => None,
        }
    }
}

/// Parses a value as [`spec_parse_value`] describes.
pub fn parse_value(s: &[u8], i: usize) -> (r: Option<(JsonValue, usize)>)
    requires
        i <= s@.len(),
    ensures
        match r {
            Some((v, n)) => spec_parse_value(s@, i as int) == Some((v@, n as int)) && n
                <= s@.len(),
            None => spec_parse_value(s@, i as int) is None,
        },
    decreases s@.len() - i, 0int,
{
    let j = skip_ws(s, i);
    if j >= s.len() {
        return None;
    }
    let b = s[j];
    if b == 123 {
        match parse_obj_body(s, j + 1) {
            Some((es, n)) => Some((JsonValue::Obj(es), n)),
            None => None,
        }
    } else if b == 91 {
        match parse_arr_body(s, j + 1) {
            Some((vs, n)) => Some((JsonValue::Arr(vs), n)),
            None => None,
        }
    } else if b == 34 {
        match parse_string(s, j) {
            Some((t, n)) => Some((JsonValue::Str(t), n)),
            None => None,
        }
    } else if b == 116 {
        if s.len() - j >= 4 && s[j + 1] == 114 && s[j + 2] == 117 && s[j + 3] == 101 {
            Some((JsonValue::Bool(true), j + 4))
        } else {
            None
        }
    } else if b == 102 {
        if s.len() - j >= 5 && s[j + 1] == 97 && s[j + 2] == 108 && s[j + 3] == 115 && s[j + 4]
            == 101 {
            Some((JsonValue::Bool(false), j + 5))
        } else {
            None
        }
    } else if b == 110 {
        if s.len() - j >= 4 && s[j + 1] == 117 && s[j + 2] == 108 && s[j + 3] == 108 {
            Some((JsonValue::Null, j + 4))
        } else {
            None
        }
    } else if b == 45 || (48 <= b && b <= 57) {
        match parse_number(s, j) {
            Some((t, n)) => Some((JsonValue::Num(t), n)),
            None => None,
        }
    } else {
        None
    }
}

/// Parses array elements as [`spec_parse_arr_body`] describes.
pub fn parse_arr_body(s: &[u8], j: usize) -> (r: Option<(Vec<JsonValue>, usize)>)
    requires
        j <= s@.len(),
    ensures
        match r {
            Some((vs, n)) => spec_parse_arr_body(s@, j as int) == Some(
                (crate::json::arr_views(vs@, vs@.len() as int), n as int),
            ) && n <= s@.len(),
            None => spec_parse_arr_body(s@, j as int) is None,
        },
    decreases s@.len() - j, 1int,
{
    let j2 = skip_ws(s, j);
    if j2 >= s.len() {
        return None;
    }
    if s[j2] == 93 {
        let vs: Vec<JsonValue> = Vec::new();
        proof {
            crate::json::lemma_arr_views(vs@, 0);
            assert(crate::json::arr_views(vs@, vs@.len() as int) =~= Seq::<JsonV>::empty());
        }
        return Some((vs, j2 + 1));
    }
    let (v, n) = match parse_value(s, j2) {
        Some(p) => p,
        None => {
            return None;
        },
    };
    if n <= j {
        return None;
    }
    let n2 = skip_ws(s, n);
    if n2 >= s.len() {
        return None;
    }
    if s[n2] == 44 {
        let (mut vs, m) = match parse_arr_body(s, n2 + 1) {
            Some(p) => p,
            None => {
                return None;
            },
        };
        let ghost grest = vs@;
        vs.insert(0, v);
        proof {
            crate::json::lemma_arr_views(vs@, vs@.len() as int);
            crate::json::lemma_arr_views(grest, grest.len() as int);
            assert(crate::json::arr_views(vs@, vs@.len() as int) =~= seq![
                crate::json::view_of(v),
            ] + crate::json::arr_views(grest, grest.len() as int));
        }
        Some((vs, m))
    } else if s[n2] == 93 {
        let mut vs: Vec<JsonValue> = Vec::new();
        vs.push(v);
        proof {
            crate::json::lemma_arr_views(vs@, 1);
            assert(crate::json::arr_views(vs@, vs@.len() as int) =~= seq![
                crate::json::view_of(v),
            ]);
        }
        Some((vs, n2 + 1))
    } else {
        None
    }
}

/// Parses object entries as [`spec_parse_obj_body`] describes.
pub fn parse_obj_body(s: &[u8], j: usize) -> (r: Option<(Vec<(String, JsonValue)>, usize)>)
    requires
        j <= s@.len(),
    ensures
        match r {
            Some((es, n)) => spec_parse_obj_body(s@, j as int) == Some(
                (crate::json::obj_views(es@, es@.len() as int), n as int),
            ) && n <= s@.len(),
            None => spec_parse_obj_body(s@, j as int) is None,
        },
    decreases s@.len() - j, 1int,
{
    let j2 = skip_ws(s, j);
    if j2 >= s.len() {
        return None;
    }
    if s[j2] == 125 {
        let es: Vec<(String, JsonValue)> = Vec::new();
        proof {
            crate::json::lemma_obj_views(es@, 0);
            assert(crate::json::obj_views(es@, es@.len() as int) =~= Seq::<
                (Seq<char>, JsonV),
            >::empty());
        }
        return Some((es, j2 + 1));
    }
    if s[j2] != 34 {
        return None;
    }
    let (k, n) = match parse_string(s, j2) {
        Some(p) => p,
        None => {
            return None;
        },
    };
    if n <= j {
        return None;
    }
    let n2 = skip_ws(s, n);
    if n2 >= s.len() {
        return None;
    }
    if s[n2] != 58 {
        return None;
    }
    let (v, m) = match parse_value(s, n2 + 1) {
        Some(p) => p,
        None => {
            return None;
        },
    };
    if m <= j {
        return None;
    }
    let m2 = skip_ws(s, m);
    if m2 >= s.len() {
        return None;
    }
    if s[m2] == 44 {
        let (mut es, p) = match parse_obj_body(s, m2 + 1) {
            Some(p) => p,
            None => {
                return None;
            },
        };
        let ghost grest = es@;
        let ghost gk = k@;
        let ghost gv = v@;
        es.insert(0, (k, v));
        proof {
            crate::json::lemma_obj_views(es@, es@.len() as int);
            crate::json::lemma_obj_views(grest, grest.len() as int);
            assert(crate::json::obj_views(es@, es@.len() as int) =~= seq![(gk, gv)]
                + crate::json::obj_views(grest, grest.len() as int));
        }
        Some((es, p))
    } else if s[m2] == 125 {
        let ghost gk = k@;
        let ghost gv = v@;
        let mut es: Vec<(String, JsonValue)> = Vec::new();
        es.push((k, v));
        proof {
            crate::json::lemma_obj_views(es@, 1);
            assert(crate::json::obj_views(es@, es@.len() as int) =~= seq![(gk, gv)]);
        }
        Some((es, m2 + 1))
    } else {
        None
    }
}

/// The value a complete JSON document denotes: one value, with nothing but
/// whitespace around it.
pub open spec fn spec_parse_json(s: Seq<u8>) -> Option<JsonV> {
    match spec_parse_value(s, 0) {
        Some((v, n)) => {
            if spec_skip_ws(s, n) == s.len() {
                Some(v)
            } else {
                None
            }
        },
        None => None,
    }
}

/// Parses a complete JSON document as [`spec_parse_json`] describes.
pub fn parse_json(s: &[u8]) -> (r: Option<JsonValue>)
    ensures
        match r {
            Some(v) => spec_parse_json(s@) == Some(v@),
            None => spec_parse_json(s@) is None,
        },
{
    match parse_value(s, 0) {
        Some((v, n)) => {
            let n2 = skip_ws(s, n);
            if n2 == s.len() {
                Some(v)
            } else {
                None
            }
        },
        None => None,
    }
}

} // verus!

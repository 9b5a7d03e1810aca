//! The library's model of JSON data.
//!
//! String and number payloads are kept as the raw characters of the JSON
//! text: for a string, the characters between the quotes with escape
//! sequences intact; for a number, the literal token. Keeping the raw form
//! lets wire content pass through the proxy unchanged, and spares the model
//! any floating-point representation.

use vstd::prelude::*;

verus! {

broadcast use vstd::seq::group_seq_axioms, vstd::std_specs::vec::group_vec_axioms;

/// Mathematical JSON tree: the view of [`JsonValue`].
#[verifier::ext_equal]
pub enum JsonV {
    Null,
    Bool(bool),
    Num(Seq<char>),
    Str(Seq<char>),
    Arr(Seq<JsonV>),
    Obj(Seq<(Seq<char>, JsonV)>),
}

/// Executable JSON tree. `Num` and `Str` hold raw fragments as described in
/// the module doc.
pub enum JsonValue {
    Null,
    Bool(bool),
    Num(String),
    Str(String),
    Arr(Vec<JsonValue>),
    Obj(Vec<(String, JsonValue)>),
}

#[via_fn]
proof fn view_of_dec(v: JsonValue) {
    broadcast use vstd::std_specs::vec::group_vec_axioms;

    match v {
        JsonValue::Arr(items) => {
            assert(decreases_to!(v => items));
            assert(decreases_to!(items => items@));
        },
        JsonValue::Obj(entries) => {
            assert(decreases_to!(v => entries));
            assert(decreases_to!(entries => entries@));
        },
        _ => {},
    }
}

/// The mathematical tree that an executable JSON value denotes.
pub open spec fn view_of(v: JsonValue) -> JsonV
    decreases v,
    via view_of_dec
{
    match v {
        JsonValue::Null => JsonV::Null,
        JsonValue::Bool(b) => JsonV::Bool(b),
        JsonValue::Num(s) => JsonV::Num(s@),
        JsonValue::Str(s) => JsonV::Str(s@),
        JsonValue::Arr(items) => JsonV::Arr(arr_views(items@, items@.len() as int)),
        JsonValue::Obj(entries) => JsonV::Obj(obj_views(entries@, entries@.len() as int)),
    }
}

#[via_fn]
proof fn arr_views_dec(s: Seq<JsonValue>, i: int) {
    if 0 < i <= s.len() {
        assert(decreases_to!(s => s[i - 1]));
    }
}

/// Views of the first `i` elements, in order.
pub open spec fn arr_views(s: Seq<JsonValue>, i: int) -> Seq<JsonV>
    decreases s, i,
    via arr_views_dec
{
    if i <= 0 || s.len() < i {
        Seq::empty()
    } else {
        arr_views(s, i - 1).push(view_of(s[i - 1]))
    }
}

#[via_fn]
proof fn obj_views_dec(s: Seq<(String, JsonValue)>, i: int) {
    if 0 < i <= s.len() {
        assert(decreases_to!(s => s[i - 1]));
        assert(decreases_to!(s[i - 1] => s[i - 1].1));
    }
}

/// Views of the first `i` key/value entries, in order.
pub open spec fn obj_views(s: Seq<(String, JsonValue)>, i: int) -> Seq<(Seq<char>, JsonV)>
    decreases s, i,
    via obj_views_dec
{
    if i <= 0 || s.len() < i {
        Seq::empty()
    } else {
        obj_views(s, i - 1).push((s[i - 1].0@, view_of(s[i - 1].1)))
    }
}

pub proof fn lemma_arr_views(s: Seq<JsonValue>, i: int)
    requires
        0 <= i <= s.len(),
    ensures
        arr_views(s, i).len() == i,
        forall|k: int| 0 <= k < i ==> #[trigger] arr_views(s, i)[k] == view_of(s[k]),
    decreases i,
{
    if i > 0 {
        lemma_arr_views(s, i - 1);
    }
}

pub proof fn lemma_obj_views(s: Seq<(String, JsonValue)>, i: int)
    requires
        0 <= i <= s.len(),
    ensures
        obj_views(s, i).len() == i,
        forall|k: int|
            0 <= k < i ==> #[trigger] obj_views(s, i)[k] == (s[k].0@, view_of(s[k].1)),
    decreases i,
{
    if i > 0 {
        lemma_obj_views(s, i - 1);
    }
}

/// The views of a non-empty entry list are the views of its front followed
/// by the view of its last entry.
pub proof fn lemma_obj_views_last(s: Seq<(String, JsonValue)>)
    requires
        s.len() > 0,
    ensures
        obj_views(s, s.len() as int) =~= obj_views(s.drop_last(), s.len() as int - 1).push(
            (s.last().0@, view_of(s.last().1)),
        ),
{
    lemma_obj_views(s, s.len() as int);
    lemma_obj_views(s.drop_last(), s.len() as int - 1);
}

impl View for JsonValue {
    type V = JsonV;

    open spec fn view(&self) -> JsonV {
        view_of(*self)
    }
}

/// Characters that may stand unescaped inside a JSON string.
pub open spec fn is_plain_str_char(c: char) -> bool {
    c != '"' && c != '\\' && (c as u32) >= 32
}

/// Raw string content is well formed when every backslash is followed by one
/// more character and every bare character is printable and unquoted.
pub open spec fn wf_str_chars(s: Seq<char>) -> bool
    decreases s.len(),
{
    if s.len() == 0 {
        true
    } else if s[0] == '\\' {
        s.len() >= 2 && (s[1] as u32) >= 32 && wf_str_chars(s.skip(2))
    } else {
        is_plain_str_char(s[0]) && wf_str_chars(s.skip(1))
    }
}

pub open spec fn is_digit_char(c: char) -> bool {
    '0' <= c && c <= '9'
}

pub open spec fn is_number_char(c: char) -> bool {
    is_digit_char(c) || c == '-' || c == '+' || c == '.' || c == 'e' || c == 'E'
}

/// A number token as the parser admits it: non-empty, starts with a sign or
/// digit, and uses only the number alphabet.
pub open spec fn wf_num_chars(s: Seq<char>) -> bool {
    &&& s.len() > 0
    &&& (s[0] == '-' || is_digit_char(s[0]))
    &&& forall|i: int| 0 <= i < s.len() ==> is_number_char(#[trigger] s[i])
}

#[via_fn]
proof fn wf_json_dec(v: JsonV) {
    broadcast use vstd::seq::group_seq_axioms;

    match v {
        JsonV::Arr(items) => {
            assert forall|i: int| 0 <= i < items.len() implies decreases_to!(v => items[i]) by {
                assert(decreases_to!(v => items));
                assert(decreases_to!(items => items[i]));
            }
        },
        JsonV::Obj(entries) => {
            assert forall|i: int| 0 <= i < entries.len() implies decreases_to!(
                v => entries[i].1,
            ) by {
                assert(decreases_to!(v => entries));
                assert(decreases_to!(entries => entries[i]));
                assert(decreases_to!(entries[i] => entries[i].1));
            }
        },
        _ => {},
    }
}

/// Well-formedness of a whole JSON tree: every raw fragment in it can stand
/// in serialized JSON text as it is.
pub open spec fn wf_json(v: JsonV) -> bool
    decreases v,
    via wf_json_dec
{
    match v {
        JsonV::Null => true,
        JsonV::Bool(_) => true,
        JsonV::Num(s) => wf_num_chars(s),
        JsonV::Str(s) => wf_str_chars(s),
        JsonV::Arr(items) => forall|i: int|
            0 <= i < items.len() ==> wf_json(#[trigger] items[i]),
        JsonV::Obj(entries) => forall|i: int|
            0 <= i < entries.len() ==> wf_str_chars(#[trigger] entries[i].0) && wf_json(
                entries[i].1,
            ),
    }
}

#[via_fn]
proof fn ser_arr_upto_dec(items: Seq<JsonV>, i: int) {
    broadcast use vstd::seq::group_seq_axioms;

    if 0 < i <= items.len() {
        assert(decreases_to!(items => items[i - 1]));
    }
}

/// Serialization of the first `i` elements of an array body, commas included.
pub open spec fn ser_arr_upto(items: Seq<JsonV>, i: int) -> Seq<char>
    decreases items, i,
    via ser_arr_upto_dec
{
    if i <= 0 || items.len() < i {
        Seq::empty()
    } else {
        ser_arr_upto(items, i - 1) + (if i - 1 > 0 {
            seq![',']
        } else {
            Seq::<char>::empty()
        }) + spec_ser(items[i - 1])
    }
}

#[via_fn]
proof fn ser_obj_upto_dec(entries: Seq<(Seq<char>, JsonV)>, i: int) {
    broadcast use vstd::seq::group_seq_axioms;

    if 0 < i <= entries.len() {
        assert(decreases_to!(entries => entries[i - 1]));
        assert(decreases_to!(entries[i - 1] => entries[i - 1].1));
    }
}

/// Serialization of the first `i` entries of an object body, commas included.
pub open spec fn ser_obj_upto(entries: Seq<(Seq<char>, JsonV)>, i: int) -> Seq<char>
    decreases entries, i,
    via ser_obj_upto_dec
{
    if i <= 0 || entries.len() < i {
        Seq::empty()
    } else {
        ser_obj_upto(entries, i - 1) + (if i - 1 > 0 {
            seq![',']
        } else {
            Seq::<char>::empty()
        }) + seq!['"'] + entries[i - 1].0 + seq!['"'] + seq![':'] + spec_ser(entries[i - 1].1)
    }
}

/// The characters that serializing a JSON tree produces.
pub open spec fn spec_ser(v: JsonV) -> Seq<char>
    decreases v,
{
    match v {
        JsonV::Null => seq!['n', 'u', 'l', 'l'],
        JsonV::Bool(b) => if b {
            seq!['t', 'r', 'u', 'e']
        } else {
            seq!['f', 'a', 'l', 's', 'e']
        },
        JsonV::Num(s) => s,
        JsonV::Str(s) => seq!['"'] + s + seq!['"'],
        JsonV::Arr(items) => seq!['['] + ser_arr_upto(items, items.len() as int) + seq![']'],
        JsonV::Obj(entries) => seq!['{'] + ser_obj_upto(entries, entries.len() as int) + seq![
            '}',
        ],
    }
}

/// Content made only of plain characters is well formed as it stands.
pub proof fn lemma_wf_str_plain(s: Seq<char>)
    requires
        forall|i: int| 0 <= i < s.len() ==> is_plain_str_char(#[trigger] s[i]),
    ensures
        wf_str_chars(s),
    decreases s.len(),
{
    if s.len() > 0 {
        assert forall|i: int| 0 <= i < s.skip(1).len() implies is_plain_str_char(
            #[trigger] s.skip(1)[i],
        ) by {
            assert(s.skip(1)[i] == s[i + 1]);
        }
        lemma_wf_str_plain(s.skip(1));
    }
}

/// Serializes `v` onto the end of `out`.
pub fn write_json(v: &JsonValue, out: &mut String)
    ensures
        final(out)@ == old(out)@ + spec_ser(v@),
    decreases v@,
{
    broadcast use vstd::string::group_string_axioms;

    match v {
        JsonValue::Null => {
            out.append("null");
            proof {
                reveal_strlit("null");
                assert(out@ =~= old(out)@ + spec_ser(v@));
            }
        },
        JsonValue::Bool(b) => {
            if *b {
                out.append("true");
                proof {
                    reveal_strlit("true");
                    assert(out@ =~= old(out)@ + spec_ser(v@));
                }
            } else {
                out.append("false");
                proof {
                    reveal_strlit("false");
                    assert(out@ =~= old(out)@ + spec_ser(v@));
                }
            }
        },
        JsonValue::Num(s) => {
            out.append(s.as_str());
        },
        JsonValue::Str(s) => {
            out.append("\"");
            out.append(s.as_str());
            out.append("\"");
            proof {
                reveal_strlit("\"");
                assert(out@ =~= old(out)@ + spec_ser(v@));
            }
        },
        JsonValue::Arr(items) => {
            proof {
                reveal_strlit("[");
                reveal_strlit("]");
            }
            out.append("[");
            let ghost gitems = v@->Arr_0;
            proof {
                lemma_arr_views(items@, items@.len() as int);
            }
            let mut i: usize = 0;
            while i < items.len()
                invariant
                    i <= items.len(),
                    gitems == arr_views(items@, items@.len() as int),
                    gitems.len() == items@.len(),
                    forall|k: int| 0 <= k < items@.len() ==> #[trigger] gitems[k] == items@[k]@,
                    v@ == JsonV::Arr(gitems),
                    out@ == old(out)@ + seq!['['] + ser_arr_upto(gitems, i as int),
                decreases items.len() - i,
            {
                proof {
                    reveal_strlit(",");
                }
                if i > 0 {
                    out.append(",");
                }
                proof {
                    assert(gitems == v@->Arr_0);
                    assert(decreases_to!(v@ => v@->Arr_0));
                    assert(decreases_to!(gitems => gitems[i as int]));
                    assert(items@[i as int]@ == gitems[i as int]);
                }
                write_json(&items[i], out);
                proof {
                    assert(out@ =~= old(out)@ + seq!['['] + ser_arr_upto(gitems, i + 1));
                }
                i = i + 1;
            }
            proof {
                reveal_strlit("]");
            }
            out.append("]");
            proof {
                assert(out@ =~= old(out)@ + spec_ser(v@));
            }
        },
        JsonValue::Obj(entries) => {
            proof {
                reveal_strlit("{");
            }
            out.append("{");
            let ghost gentries = v@->Obj_0;
            proof {
                lemma_obj_views(entries@, entries@.len() as int);
            }
            let mut i: usize = 0;
            while i < entries.len()
                invariant
                    i <= entries.len(),
                    gentries == obj_views(entries@, entries@.len() as int),
                    gentries.len() == entries@.len(),
                    forall|k: int|
                        0 <= k < entries@.len() ==> #[trigger] gentries[k] == (
                            entries@[k].0@,
                            entries@[k].1@,
                        ),
                    v@ == JsonV::Obj(gentries),
                    out@ == old(out)@ + seq!['{'] + ser_obj_upto(gentries, i as int),
                decreases entries.len() - i,
            {
                proof {
                    reveal_strlit(",");
                    reveal_strlit("\"");
                    reveal_strlit(":");
                }
                if i > 0 {
                    out.append(",");
                }
                let entry = &entries[i];
                out.append("\"");
                out.append(entry.0.as_str());
                out.append("\"");
                out.append(":");
                proof {
                    assert(gentries == v@->Obj_0);
                    assert(decreases_to!(v@ => v@->Obj_0));
                    assert(decreases_to!(gentries => gentries[i as int]));
                    assert(decreases_to!(gentries[i as int] => gentries[i as int].1));
                    assert(entries@[i as int].1@ == gentries[i as int].1);
                }
                write_json(&entry.1, out);
                proof {
                    assert(out@ =~= old(out)@ + seq!['{'] + ser_obj_upto(gentries, i + 1));
                }
                i = i + 1;
            }
            proof {
                reveal_strlit("}");
            }
            out.append("}");
            proof {
                assert(out@ =~= old(out)@ + spec_ser(v@));
            }
        },
    }
}

impl JsonValue {
    /// A copy with the same mathematical tree.
    pub fn duplicate(&self) -> (r: JsonValue)
        ensures
            r@ == self@,
        decreases self@,
    {
        match self {
            JsonValue::Null => JsonValue::Null,
            JsonValue::Bool(b) => JsonValue::Bool(*b),
            JsonValue::Num(s) => JsonValue::Num(s.clone()),
            JsonValue::Str(s) => JsonValue::Str(s.clone()),
            JsonValue::Arr(items) => {
                let ghost gitems = self@->Arr_0;
                proof {
                    lemma_arr_views(items@, items@.len() as int);
                }
                let mut out: Vec<JsonValue> = Vec::new();
                let mut i: usize = 0;
                while i < items.len()
                    invariant
                        0 <= i <= items@.len(),
                        gitems == arr_views(items@, items@.len() as int),
                        gitems.len() == items@.len(),
                        forall|k: int|
                            0 <= k < items@.len() ==> #[trigger] gitems[k] == items@[k]@,
                        self@ == JsonV::Arr(gitems),
                        out@.len() == i,
                        forall|k: int| 0 <= k < i ==> #[trigger] out@[k]@ == gitems[k],
                    decreases items@.len() - i,
                {
                    proof {
                        assert(gitems == self@->Arr_0);
                        assert(decreases_to!(self@ => self@->Arr_0));
                        assert(decreases_to!(gitems => gitems[i as int]));
                        assert(items@[i as int]@ == gitems[i as int]);
                    }
                    let copy = items[i].duplicate();
                    out.push(copy);
                    i = i + 1;
                }
                let r = JsonValue::Arr(out);
                proof {
                    lemma_arr_views(out@, out@.len() as int);
                    assert forall|k: int|
                        0 <= k < gitems.len() implies arr_views(out@, out@.len() as int)[k]
                        == gitems[k] by {
                        assert(arr_views(out@, out@.len() as int)[k] == view_of(out@[k]));
                        assert(out@[k]@ == gitems[k]);
                    }
                    assert(r@->Arr_0 =~= gitems);
                }
                r
            },
            JsonValue::Obj(entries) => {
                let ghost gentries = self@->Obj_0;
                proof {
                    lemma_obj_views(entries@, entries@.len() as int);
                }
                let mut out: Vec<(String, JsonValue)> = Vec::new();
                let mut i: usize = 0;
                while i < entries.len()
                    invariant
                        0 <= i <= entries@.len(),
                        gentries == obj_views(entries@, entries@.len() as int),
                        gentries.len() == entries@.len(),
                        forall|k: int|
                            0 <= k < entries@.len() ==> #[trigger] gentries[k] == (
                                entries@[k].0@,
                                entries@[k].1@,
                            ),
                        self@ == JsonV::Obj(gentries),
                        out@.len() == i,
                        forall|k: int|
                            0 <= k < i ==> (#[trigger] out@[k].0@, out@[k].1@) == gentries[k],
                    decreases entries@.len() - i,
                {
                    proof {
                        assert(gentries == self@->Obj_0);
                        assert(decreases_to!(self@ => self@->Obj_0));
                        assert(decreases_to!(gentries => gentries[i as int]));
                        assert(decreases_to!(gentries[i as int] => gentries[i as int].1));
                        assert(entries@[i as int].1@ == gentries[i as int].1);
                    }
                    let entry = &entries[i];
                    let key = entry.0.clone();
                    let copy = entry.1.duplicate();
                    out.push((key, copy));
                    i = i + 1;
                }
                let r = JsonValue::Obj(out);
                proof {
                    lemma_obj_views(out@, out@.len() as int);
                    assert(r@->Obj_0 =~= gentries);
                }
                r
            },
        }
    }
}

/// Serializes a JSON tree to its textual form.
pub fn to_json_string(v: &JsonValue) -> (r: String)
    ensures
        r@ == spec_ser(v@),
{
    let mut out = String::new();
    write_json(v, &mut out);
    proof {
        assert(out@ =~= spec_ser(v@));
    }
    out
}

} // verus!

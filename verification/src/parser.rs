//! Incremental extraction of complete JSON objects from a fragmented
//! concatenated-array byte stream, and the assembly buffer for streamed
//! function-call arguments.
//!
//! The stream splitter is a byte-at-a-time state machine, specified by
//! [`split_step`] and its fold [`split_run`]. Because the machine's result
//! is a function of the concatenated input alone, feeding a stream in any
//! fragmentation yields the same objects — see
//! [`lemma_fragmentation_complete`].

use crate::chunk::{chunk_of_json, spec_chunk_of_json, ChunkV};
use crate::error::ProxyError;
use crate::gemini::GeminiStreamChunk;
use crate::json::JsonValue;
use crate::jsontext::{parse_json, spec_parse_json};
use vstd::prelude::*;

verus! {

broadcast use vstd::seq::group_seq_axioms, vstd::std_specs::vec::group_vec_axioms;

/// Relies on `core::mem::replace`: moves `src` into `dest` and returns the
/// old value of `dest`.
pub assume_specification<T>[ core::mem::replace::<T> ](dest: &mut T, src: T) -> (r: T)
    ensures
        *final(dest) == src,
        r == *old(dest),
;

/// Relies on `Vec::capacity`: how many bytes the buffer can hold without
/// reallocating, never fewer than it holds.
#[verifier::external_body]
fn vec_capacity(v: &Vec<u8>) -> (r: usize)
    ensures
        r >= v@.len(),
{
    v.capacity()
}

/// The splitter's state: whether the array bracket was seen, and the brace
/// depth, string state and collected bytes of the object being read.
#[verifier::ext_equal]
pub struct SplitV {
    pub started: bool,
    pub depth: nat,
    pub in_string: bool,
    pub escaped: bool,
    pub cur: Seq<u8>,
}

/// The state before any input.
pub open spec fn split_init() -> SplitV {
    SplitV { started: false, depth: 0, in_string: false, escaped: false, cur: Seq::empty() }
}

/// One byte of input: outside an object, `{` opens one, `[` marks the array
/// and everything else is noise; inside, brace depth and string state are
/// tracked, and when the depth returns to zero the object's bytes are
/// emitted.
pub open spec fn split_step(st: SplitV, b: u8) -> (SplitV, Option<Seq<u8>>) {
    if st.depth == 0 {
        if b == 123 {
            (
                SplitV {
                    started: st.started,
                    depth: 1,
                    in_string: false,
                    escaped: false,
                    cur: seq![b],
                },
                None,
            )
        } else if b == 91 {
            (SplitV { started: true, ..st }, None)
        } else {
            (st, None)
        }
    } else {
        let cur2 = st.cur.push(b);
        if st.in_string {
            if st.escaped {
                (SplitV { cur: cur2, escaped: false, ..st }, None)
            } else if b == 92 {
                (SplitV { cur: cur2, escaped: true, ..st }, None)
            } else if b == 34 {
                (SplitV { cur: cur2, in_string: false, ..st }, None)
            } else {
                (SplitV { cur: cur2, ..st }, None)
            }
        } else {
            if b == 34 {
                (SplitV { cur: cur2, in_string: true, ..st }, None)
            } else if b == 123 {
                (SplitV { cur: cur2, depth: st.depth + 1, ..st }, None)
            } else if b == 125 {
                if st.depth == 1 {
                    (
                        SplitV {
                            started: st.started,
                            depth: 0,
                            in_string: false,
                            escaped: false,
                            cur: Seq::empty(),
                        },
                        Some(cur2),
                    )
                } else {
                    (SplitV { cur: cur2, depth: (st.depth - 1) as nat, ..st }, None)
                }
            } else {
                (SplitV { cur: cur2, ..st }, None)
            }
        }
    }
}

/// The machine folded over a byte string: the final state and the emitted
/// objects, in order.
pub open spec fn split_run(st: SplitV, s: Seq<u8>) -> (SplitV, Seq<Seq<u8>>)
    decreases s.len(),
{
    if s.len() == 0 {
        (st, Seq::empty())
    } else {
        let (st1, em) = split_step(st, s[0]);
        let (st2, objs) = split_run(st1, s.skip(1));
        (
            st2,
            match em {
                Some(o) => seq![o] + objs,
                None => objs,
            },
        )
    }
}

/// Running the machine over a concatenation is running it over the pieces
/// in turn: the splitter's behaviour depends only on the byte stream, not
/// on how it was cut.
pub proof fn lemma_split_run_concat(st: SplitV, a: Seq<u8>, b: Seq<u8>)
    ensures
        split_run(st, a + b).0 == split_run(split_run(st, a).0, b).0,
        split_run(st, a + b).1 == split_run(st, a).1 + split_run(split_run(st, a).0, b).1,
    decreases a.len(),
{
    if a.len() == 0 {
        assert(a + b =~= b);
        assert(split_run(st, a).1 + split_run(split_run(st, a).0, b).1 =~= split_run(st, b).1);
    } else {
        let (st1, em) = split_step(st, a[0]);
        assert((a + b).skip(1) =~= a.skip(1) + b);
        lemma_split_run_concat(st1, a.skip(1), b);
        match em {
            Some(o) => {
                assert(split_run(st, a + b).1 =~= split_run(st, a).1 + split_run(
                    split_run(st, a).0,
                    b,
                ).1);
            },
            None => {},
        }
    }
}

/// The chunk a complete object's bytes decode to, if they parse as JSON and
/// fit the chunk shape.
pub open spec fn spec_decode_obj(bytes: Seq<u8>) -> Option<ChunkV> {
    match spec_parse_json(bytes) {
        Some(v) => spec_chunk_of_json(v),
        None => None,
    }
}

/// The chunks a list of objects decodes to: objects that do not decode are
/// skipped, and the order of the rest is kept.
pub open spec fn spec_decode_list(objs: Seq<Seq<u8>>) -> Seq<ChunkV>
    decreases objs.len(),
{
    if objs.len() == 0 {
        Seq::empty()
    } else {
        match spec_decode_obj(objs[0]) {
            Some(c) => seq![c] + spec_decode_list(objs.skip(1)),
            None => spec_decode_list(objs.skip(1)),
        }
    }
}

pub proof fn lemma_decode_list_concat(a: Seq<Seq<u8>>, b: Seq<Seq<u8>>)
    ensures
        spec_decode_list(a + b) == spec_decode_list(a) + spec_decode_list(b),
    decreases a.len(),
{
    if a.len() == 0 {
        assert(a + b =~= b);
        assert(spec_decode_list(a) + spec_decode_list(b) =~= spec_decode_list(b));
    } else {
        assert((a + b).skip(1) =~= a.skip(1) + b);
        lemma_decode_list_concat(a.skip(1), b);
        match spec_decode_obj(a[0]) {
            Some(c) => {
                assert(spec_decode_list(a + b) =~= spec_decode_list(a) + spec_decode_list(b));
            },
            None => {},
        }
    }
}

/// The concatenation of a list of byte strings.
pub open spec fn concat_all(parts: Seq<Seq<u8>>) -> Seq<u8>
    decreases parts.len(),
{
    if parts.len() == 0 {
        Seq::empty()
    } else {
        parts[0] + concat_all(parts.skip(1))
    }
}

/// The machine folded over a list of fragments, fed one after the other.
pub open spec fn split_run_all(st: SplitV, parts: Seq<Seq<u8>>) -> (SplitV, Seq<Seq<u8>>)
    decreases parts.len(),
{
    if parts.len() == 0 {
        (st, Seq::empty())
    } else {
        let (st1, objs) = split_run(st, parts[0]);
        let (st2, rest) = split_run_all(st1, parts.skip(1));
        (st2, objs + rest)
    }
}

/// Completeness under fragmentation: for any byte string and any way of
/// cutting it into fragments, feeding the fragments one by one ends in the
/// same state and emits exactly the same ordered objects — and therefore the
/// same ordered list of decoded chunks — as feeding the whole string at
/// once.
pub proof fn lemma_fragmentation_complete(st: SplitV, parts: Seq<Seq<u8>>)
    ensures
        split_run_all(st, parts).0 == split_run(st, concat_all(parts)).0,
        split_run_all(st, parts).1 == split_run(st, concat_all(parts)).1,
        spec_decode_list(split_run_all(st, parts).1) == spec_decode_list(
            split_run(st, concat_all(parts)).1,
        ),
    decreases parts.len(),
{
    if parts.len() == 0 {
        assert(split_run_all(st, parts).1 =~= split_run(st, concat_all(parts)).1);
    } else {
        let (st1, objs) = split_run(st, parts[0]);
        lemma_fragmentation_complete(st1, parts.skip(1));
        lemma_split_run_concat(st, parts[0], concat_all(parts.skip(1)));
    }
}

/// Resilience: an object that does not decode contributes nothing — the
/// chunks of the remaining objects, in their order, are exactly the chunks
/// of the whole list. Every syntactically valid object is thus still
/// emitted when invalid ones stand among them.
pub proof fn lemma_parser_resilience(objs: Seq<Seq<u8>>, i: int)
    requires
        0 <= i < objs.len(),
        spec_decode_obj(objs[i]) is None,
    ensures
        spec_decode_list(objs) == spec_decode_list(objs.remove(i)),
    decreases objs.len(),
{
    if i == 0 {
        assert(objs.remove(0) =~= objs.skip(1));
    } else {
        assert(objs.remove(i).skip(1) =~= objs.skip(1).remove(i - 1));
        assert(objs.remove(i)[0] == objs[0]);
        lemma_parser_resilience(objs.skip(1), i - 1);
        match spec_decode_obj(objs[0]) {
            Some(c) => {
                assert(spec_decode_list(objs) =~= spec_decode_list(objs.remove(i)));
            },
            None => {},
        }
    }
}

/// Buffer for accumulating the partial JSON of a streamed function-call
/// input.
pub struct ToolInputBuffer {
    pub partial_json: String,
    pub tool_name: String,
    pub tool_id: Option<String>,
    pub is_complete: bool,
}

impl ToolInputBuffer {
    /// An empty buffer for the named tool.
    pub fn new(tool_name: String) -> (r: ToolInputBuffer)
        ensures
            r.partial_json@ == Seq::<char>::empty(),
            r.tool_name == tool_name,
            r.tool_id is None,
            !r.is_complete,
    {
        ToolInputBuffer {
            partial_json: String::new(),
            tool_name,
            tool_id: None,
            is_complete: false,
        }
    }

    /// Appends a fragment of JSON text.
    pub fn append(&mut self, chunk: &str)
        ensures
            final(self).partial_json@ == old(self).partial_json@ + chunk@,
            final(self).tool_name == old(self).tool_name,
            final(self).tool_id == old(self).tool_id,
            final(self).is_complete == old(self).is_complete,
    {
        self.partial_json.append(chunk);
    }

    /// The value accumulated so far denotes, if it is already complete
    /// JSON.
    pub fn try_parse(&self) -> (r: Option<JsonValue>)
        ensures
            match r {
                Some(v) => spec_parse_json(vstd::utf8::encode_utf8(self.partial_json@)) == Some(
                    v@,
                ),
                None => spec_parse_json(vstd::utf8::encode_utf8(self.partial_json@)) is None,
            },
    {
        parse_json(self.partial_json.as_str().as_bytes())
    }

    /// Marks the buffer complete and parses it, or reports what failed.
    pub fn finalize(&mut self) -> (r: Result<JsonValue, ProxyError>)
        ensures
            final(self).is_complete,
            final(self).partial_json == old(self).partial_json,
            final(self).tool_name == old(self).tool_name,
            final(self).tool_id == old(self).tool_id,
            match r {
                Ok(v) => spec_parse_json(vstd::utf8::encode_utf8(old(self).partial_json@))
                    == Some(v@),
                Err(e) => spec_parse_json(vstd::utf8::encode_utf8(old(self).partial_json@))
                    is None && e is TransformationError,
            },
    {
        self.is_complete = true;
        match parse_json(self.partial_json.as_str().as_bytes()) {
            Some(v) => Ok(v),
            None => {
                let mut m = String::from_str("incomplete or invalid tool input JSON for ");
                m.append(self.tool_name.as_str());
                Err(ProxyError::TransformationError(m))
            },
        }
    }

    /// How many bytes are buffered.
    pub fn size(&self) -> (r: usize)
        ensures
            r == vstd::utf8::encode_utf8(self.partial_json@).len() as usize,
    {
        let st = self.partial_json.as_str();
        let r = st.len();
        proof {
            assert(vstd::string::StringSliceAdditionalSpecFns::spec_bytes(st)
                == vstd::utf8::encode_utf8(self.partial_json@));
        }
        r
    }
}

/// Stateful splitter and decoder for the upstream's chunked JSON array
/// stream, with the optional tool-input assembly buffer.
pub struct StreamingJsonParser {
    started: bool,
    depth: usize,
    in_string: bool,
    escaped: bool,
    cur: Vec<u8>,
    tool_input_buffer: Option<ToolInputBuffer>,
}

impl StreamingJsonParser {
    /// The splitter state this parser holds.
    pub closed spec fn st(&self) -> SplitV {
        SplitV {
            started: self.started,
            depth: self.depth as nat,
            in_string: self.in_string,
            escaped: self.escaped,
            cur: self.cur@,
        }
    }

    /// The brace depth never exceeds the bytes collected, which keeps the
    /// depth counter within machine range.
    pub closed spec fn wf(&self) -> bool {
        self.depth <= self.cur@.len()
    }

    pub closed spec fn spec_tool_buffer(&self) -> Option<ToolInputBuffer> {
        self.tool_input_buffer
    }

    /// A parser in the initial state.
    pub fn new() -> (r: StreamingJsonParser)
        ensures
            r.st() == split_init(),
            r.wf(),
            r.spec_tool_buffer() is None,
    {
        let r = StreamingJsonParser {
            started: false,
            depth: 0,
            in_string: false,
            escaped: false,
            cur: Vec::new(),
            tool_input_buffer: None,
        };
        proof {
            assert(r.st() =~= split_init());
        }
        r
    }

    /// Whether the opening array bracket has been seen.
    pub fn array_started(&self) -> (r: bool)
        ensures
            r == self.st().started,
    {
        self.started
    }

    /// Whether no partial object is pending.
    pub fn buffer_is_empty(&self) -> (r: bool)
        ensures
            r == (self.st().cur.len() == 0),
    {
        self.cur.len() == 0
    }

    /// Feeds one chunk of bytes; returns the chunks of every object that
    /// completed, objects that do not decode being skipped.
    pub fn feed(&mut self, chunk: &[u8]) -> (r: Result<Vec<GeminiStreamChunk>, ProxyError>)
        requires
            old(self).wf(),
        ensures
            final(self).wf(),
            final(self).st() == split_run(old(self).st(), chunk@).0,
            final(self).spec_tool_buffer() == old(self).spec_tool_buffer(),
            (r matches Ok(cs) && Seq::new(cs@.len(), |i: int| cs@[i]@) == spec_decode_list(
                split_run(old(self).st(), chunk@).1,
            )),
    {
        let ghost st0 = self.st();
        let mut out: Vec<GeminiStreamChunk> = Vec::new();
        let n = chunk.len();
        let mut i: usize = 0;
        proof {
            assert(chunk@.take(0) =~= Seq::<u8>::empty());
            assert(Seq::new(out@.len(), |k: int| out@[k]@) =~= spec_decode_list(
                split_run(st0, chunk@.take(0)).1,
            ));
        }
        while i < n
            invariant
                n == chunk@.len(),
                0 <= i <= n,
                self.wf(),
                self.st() == split_run(st0, chunk@.take(i as int)).0,
                self.spec_tool_buffer() == old(self).spec_tool_buffer(),
                Seq::new(out@.len(), |k: int| out@[k]@) == spec_decode_list(
                    split_run(st0, chunk@.take(i as int)).1,
                ),
            decreases n - i,
        {
            let b = chunk[i];
            let ghost pre = self.st();
            let ghost pre_objs = split_run(st0, chunk@.take(i as int)).1;
            let mut emitted: Option<Vec<u8>> = None;
            if self.depth == 0 {
                if b == 123 {
                    self.cur.clear();
                    self.cur.push(b);
                    self.depth = 1;
                    self.in_string = false;
                    self.escaped = false;
                } else if b == 91 {
                    self.started = true;
                }
            } else {
                self.cur.push(b);
                if self.in_string {
                    if self.escaped {
                        self.escaped = false;
                    } else if b == 92 {
                        self.escaped = true;
                    } else if b == 34 {
                        self.in_string = false;
                    }
                } else {
                    if b == 34 {
                        self.in_string = true;
                    } else if b == 123 {
                        let cl = self.cur.len();
                        proof {
                            assert(self.depth < cl);
                        }
                        self.depth = self.depth + 1;
                    } else if b == 125 {
                        if self.depth == 1 {
                            self.depth = 0;
                            self.in_string = false;
                            self.escaped = false;
                            let done = core::mem::replace(&mut self.cur, Vec::new());
                            emitted = Some(done);
                        } else {
                            self.depth = self.depth - 1;
                        }
                    }
                }
            }
            proof {
                let (gst, gem) = split_step(pre, b);
                assert(self.st() =~= gst);
                match gem {
                    Some(o) => {
                        assert(emitted matches Some(e) && e@ == o);
                    },
                    None => {
                        assert(emitted is None);
                    },
                }
            }
            if let Some(done) = emitted {
                let ghost gobj = done@;
                match parse_json(done.as_slice()) {
                    Some(v) => {
                        match chunk_of_json(&v) {
                            Some(c) => {
                                out.push(c);
                                proof {
                                    assert(spec_decode_obj(gobj) == Some(out@[out@.len() - 1]@));
                                }
                            },
                            None => {
                                proof {
                                    assert(spec_decode_obj(gobj) is None);
                                }
                            },
                        }
                    },
                    None => {
                        proof {
                            assert(spec_decode_obj(gobj) is None);
                        }
                    },
                }
            }
            i = i + 1;
            proof {
                assert(chunk@.take(i as int) =~= chunk@.take(i - 1) + seq![b]);
                lemma_split_run_concat(st0, chunk@.take(i - 1), seq![b]);
                reveal_with_fuel(split_run, 3);
                assert(seq![b].skip(1) =~= Seq::<u8>::empty());
                assert(seq![b][0] == b);
                let (gst, gem) = split_step(pre, b);
                assert(split_run(pre, seq![b]).0 =~= gst);
                match gem {
                    Some(o) => {
                        assert(split_run(pre, seq![b]).1 =~= seq![o]);
                        lemma_decode_list_concat(pre_objs, seq![o]);
                        reveal_with_fuel(spec_decode_list, 3);
                        assert(seq![o][0] == o);
                        assert(seq![o].skip(1) =~= Seq::<Seq<u8>>::empty());
                        match spec_decode_obj(o) {
                            Some(c) => {
                                assert(spec_decode_list(seq![o]) =~= seq![c]);
                            },
                            None => {
                                assert(spec_decode_list(seq![o]) =~= Seq::<ChunkV>::empty());
                            },
                        }
                        assert(split_run(st0, chunk@.take(i as int)).1 =~= pre_objs + seq![o]);
                        assert(Seq::new(out@.len(), |k: int| out@[k]@) =~= spec_decode_list(
                            split_run(st0, chunk@.take(i as int)).1,
                        ));
                    },
                    None => {
                        assert(split_run(pre, seq![b]).1 =~= Seq::<Seq<u8>>::empty());
                        lemma_decode_list_concat(pre_objs, Seq::empty());
                        assert(split_run(st0, chunk@.take(i as int)).1 =~= pre_objs);
                    },
                }
            }
        }
        proof {
            assert(chunk@.take(n as int) =~= chunk@);
        }
        Ok(out)
    }

    /// Drops all splitter state and any tool-input buffer. A buffer that
    /// grew past 64 KiB is given back to the allocator and replaced by the
    /// initial 8 KiB one; a smaller buffer is reused in place.
    pub fn reset(&mut self)
        ensures
            final(self).st() == split_init(),
            final(self).wf(),
            final(self).spec_tool_buffer() is None,
    {
        self.started = false;
        self.depth = 0;
        self.in_string = false;
        self.escaped = false;
        if vec_capacity(&self.cur) > 65536 {
            self.cur = Vec::with_capacity(8192);
        } else {
            self.cur.clear();
        }
        self.tool_input_buffer = None;
        proof {
            assert(self.st() =~= split_init());
        }
    }

    /// Starts buffering input for the named tool.
    pub fn start_tool_input(&mut self, tool_name: String, tool_id: Option<String>)
        ensures
            (final(self).spec_tool_buffer() matches Some(b) && b.tool_name == tool_name
                && b.tool_id == tool_id && b.partial_json@ == Seq::<char>::empty()
                && !b.is_complete),
            final(self).st() == old(self).st(),
            final(self).wf() == old(self).wf(),
    {
        let mut buffer = ToolInputBuffer::new(tool_name);
        buffer.tool_id = tool_id;
        self.tool_input_buffer = Some(buffer);
    }

    /// Appends to the tool-input buffer and reports the parsed value once
    /// the accumulated text is complete JSON.
    pub fn append_tool_input(&mut self, chunk: &str) -> (r: Option<JsonValue>)
        ensures
            final(self).st() == old(self).st(),
            final(self).wf() == old(self).wf(),
            old(self).spec_tool_buffer() is None ==> r is None && final(self).spec_tool_buffer()
                is None,
            old(self).spec_tool_buffer() matches Some(b) ==> (final(self).spec_tool_buffer()
                matches Some(b2) && b2.partial_json@ == b.partial_json@ + chunk@ && (match r {
                Some(v) => spec_parse_json(vstd::utf8::encode_utf8(b2.partial_json@)) == Some(
                    v@,
                ),
                None => spec_parse_json(vstd::utf8::encode_utf8(b2.partial_json@)) is None,
            })),
    {
        match &mut self.tool_input_buffer {
            Some(buffer) => {
                buffer.append(chunk);
                buffer.try_parse()
            },
            None => None,
        }
    }

    /// Whether a tool-input buffer is active.
    pub fn is_buffering_tool_input(&self) -> (r: bool)
        ensures
            r == (self.spec_tool_buffer() is Some),
    {
        match &self.tool_input_buffer {
            Some(_) => true,
            None => false,
        }
    }

    /// Takes the tool-input buffer and parses what it accumulated: the tool
    /// name, the id, and the input value.
    pub fn finalize_tool_input(&mut self) -> (r: Result<
        Option<(String, Option<String>, JsonValue)>,
        ProxyError,
    >)
        ensures
            final(self).st() == old(self).st(),
            final(self).wf() == old(self).wf(),
            final(self).spec_tool_buffer() is None,
            old(self).spec_tool_buffer() is None ==> (r matches Ok(o) && o is None),
            old(self).spec_tool_buffer() matches Some(b) ==> match r {
                Ok(o) => (o matches Some((name, id, v)) && name == b.tool_name && id
                    == b.tool_id && spec_parse_json(vstd::utf8::encode_utf8(b.partial_json@))
                    == Some(v@)),
                Err(e) => spec_parse_json(vstd::utf8::encode_utf8(b.partial_json@)) is None
                    && e is TransformationError,
            },
    {
        match core::mem::replace(&mut self.tool_input_buffer, None) {
            Some(mut buffer) => {
                match buffer.finalize() {
                    Ok(v) => Ok(Some((buffer.tool_name, buffer.tool_id, v))),
                    Err(e) => Err(e),
                }
            },
            None => Ok(None),
        }
    }
}

} // verus!

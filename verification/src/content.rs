//! Tracking of the content blocks of one streamed reply message, with their
//! indices.

use crate::json::JsonValue;
use vstd::prelude::*;

verus! {

broadcast use vstd::seq::group_seq_axioms, vstd::std_specs::vec::group_vec_axioms;

/// The kind of a content block.
pub enum ContentBlockType {
    Text,
    ToolUse,
}

/// One content block of the reply, with its position.
pub struct ContentBlock {
    pub index: usize,
    pub block_type: ContentBlockType,
    pub text: String,
    pub tool_use_id: Option<String>,
    pub tool_name: Option<String>,
    pub tool_input: JsonValue,
    pub is_complete: bool,
}

impl ContentBlock {
    /// An empty text block at `index`.
    pub fn new_text(index: usize) -> (r: ContentBlock)
        ensures
            r.index == index,
            r.block_type is Text,
            r.text@ == Seq::<char>::empty(),
            !r.is_complete,
    {
        ContentBlock {
            index,
            block_type: ContentBlockType::Text,
            text: String::new(),
            tool_use_id: None,
            tool_name: None,
            tool_input: JsonValue::Obj(Vec::new()),
            is_complete: false,
        }
    }

    /// A tool-use block at `index` with an empty input.
    pub fn new_tool_use(index: usize, tool_use_id: String, name: String) -> (r: ContentBlock)
        ensures
            r.index == index,
            r.block_type is ToolUse,
            (r.tool_use_id matches Some(i) && i == tool_use_id),
            (r.tool_name matches Some(n) && n == name),
            !r.is_complete,
    {
        ContentBlock {
            index,
            block_type: ContentBlockType::ToolUse,
            text: String::new(),
            tool_use_id: Some(tool_use_id),
            tool_name: Some(name),
            tool_input: JsonValue::Obj(Vec::new()),
            is_complete: false,
        }
    }

    /// Appends text to the block.
    pub fn append_text(&mut self, text: &str)
        ensures
            final(self).text@ == old(self).text@ + text@,
            final(self).index == old(self).index,
            final(self).block_type == old(self).block_type,
            final(self).is_complete == old(self).is_complete,
    {
        self.text.append(text);
    }

    /// Replaces the tool input.
    pub fn set_tool_input(&mut self, input: JsonValue)
        ensures
            final(self).tool_input == input,
            final(self).index == old(self).index,
            final(self).block_type == old(self).block_type,
            final(self).text == old(self).text,
            final(self).is_complete == old(self).is_complete,
    {
        self.tool_input = input;
    }

    /// Marks the block complete.
    pub fn complete(&mut self)
        ensures
            final(self).is_complete,
            final(self).index == old(self).index,
            final(self).block_type == old(self).block_type,
            final(self).text == old(self).text,
    {
        self.is_complete = true;
    }
}

/// The blocks of one reply, indices handed out in order.
pub struct ContentBlockManager {
    blocks: Vec<ContentBlock>,
    current_index: usize,
}

impl ContentBlockManager {
    /// The blocks so far.
    pub closed spec fn spec_blocks(&self) -> Seq<ContentBlock> {
        self.blocks@
    }

    /// The next index to hand out.
    pub closed spec fn spec_next_index(&self) -> usize {
        self.current_index
    }

    /// Block `k` carries index `k`.
    pub open spec fn wf(&self) -> bool {
        &&& self.spec_next_index() == self.spec_blocks().len()
        &&& forall|k: int|
            0 <= k < self.spec_blocks().len() ==> (#[trigger] self.spec_blocks()[k]).index == k
    }

    /// An empty manager.
    pub fn new() -> (r: ContentBlockManager)
        ensures
            r.spec_blocks() == Seq::<ContentBlock>::empty(),
            r.wf(),
    {
        ContentBlockManager { blocks: Vec::new(), current_index: 0 }
    }

    /// Opens a new text block; returns its index.
    pub fn start_text_block(&mut self) -> (r: usize)
        requires
            old(self).wf(),
        ensures
            final(self).wf(),
            r == old(self).spec_blocks().len(),
            final(self).spec_blocks().len() == old(self).spec_blocks().len() + 1,
            final(self).spec_blocks().last().block_type is Text,
            forall|k: int|
                0 <= k < old(self).spec_blocks().len()
                    ==> #[trigger] final(self).spec_blocks()[k] == old(self).spec_blocks()[k],
    {
        let index = self.current_index;
        self.blocks.push(ContentBlock::new_text(index));
        let nl = self.blocks.len();
        proof {
            assert(self.current_index < nl);
        }
        self.current_index = self.current_index + 1;
        index
    }

    /// Opens a new tool-use block; returns its index.
    pub fn start_tool_use_block(&mut self, tool_use_id: String, name: String) -> (r: usize)
        requires
            old(self).wf(),
        ensures
            final(self).wf(),
            r == old(self).spec_blocks().len(),
            final(self).spec_blocks().len() == old(self).spec_blocks().len() + 1,
            final(self).spec_blocks().last().block_type is ToolUse,
            (final(self).spec_blocks().last().tool_name matches Some(n) && n == name),
            forall|k: int|
                0 <= k < old(self).spec_blocks().len()
                    ==> #[trigger] final(self).spec_blocks()[k] == old(self).spec_blocks()[k],
    {
        let index = self.current_index;
        self.blocks.push(ContentBlock::new_tool_use(index, tool_use_id, name));
        let nl = self.blocks.len();
        proof {
            assert(self.current_index < nl);
        }
        self.current_index = self.current_index + 1;
        index
    }

    /// The block at `index`, to change.
    pub fn get_mut(&mut self, index: usize) -> (r: Option<&mut ContentBlock>)
        requires
            old(self).wf(),
        ensures
            index < old(self).spec_blocks().len() ==> (r matches Some(b) && *b == old(
                self,
            ).spec_blocks()[index as int] && final(self).spec_blocks() == old(
                self,
            ).spec_blocks().update(index as int, *final(b)) && final(self).spec_next_index()
                == old(self).spec_next_index()),
            index >= old(self).spec_blocks().len() ==> r is None && *final(self) == *old(self),
    {
        if index < self.blocks.len() {
            Some(&mut self.blocks[index])
        } else {
            None
        }
    }

    /// The block at `index`, to read.
    pub fn get(&self, index: usize) -> (r: Option<&ContentBlock>)
        requires
            self.wf(),
        ensures
            index < self.spec_blocks().len() ==> (r matches Some(b) && *b == self.spec_blocks()[
                index as int
            ]),
            index >= self.spec_blocks().len() ==> r is None,
    {
        if index < self.blocks.len() {
            Some(&self.blocks[index])
        } else {
            None
        }
    }

    /// The latest block, to change.
    pub fn current_block_mut(&mut self) -> (r: Option<&mut ContentBlock>)
        ensures
            old(self).spec_blocks().len() > 0 ==> (r matches Some(b) && *b == old(
                self,
            ).spec_blocks().last() && final(self).spec_blocks() == old(
                self,
            ).spec_blocks().update(old(self).spec_blocks().len() - 1, *final(b))),
            old(self).spec_blocks().len() == 0 ==> r is None && *final(self) == *old(self),
    {
        let n = self.blocks.len();
        if n > 0 {
            let r = Some(&mut self.blocks[n - 1]);
            proof {
                assert(old(self).spec_blocks().update(
                    old(self).spec_blocks().len() - 1,
                    old(self).spec_blocks().last(),
                ) =~= old(self).spec_blocks());
            }
            r
        } else {
            None
        }
    }

    /// The blocks so far, in order.
    pub fn blocks(&self) -> (r: &[ContentBlock])
        ensures
            r@ == self.spec_blocks(),
    {
        self.blocks.as_slice()
    }

    /// How many blocks there are.
    pub fn len(&self) -> (r: usize)
        ensures
            r == self.spec_blocks().len(),
    {
        self.blocks.len()
    }

    /// Whether there is no block.
    pub fn is_empty(&self) -> (r: bool)
        ensures
            r == (self.spec_blocks().len() == 0),
    {
        self.blocks.len() == 0
    }

    /// Whether some text block holds non-blank text.
    pub fn has_text_content(&self) -> (r: bool)
        ensures
            r == exists|k: int|
                0 <= k < self.spec_blocks().len() && (#[trigger] self.spec_blocks()[
                    k
                ]).block_type is Text && !crate::text::raw_blank(self.spec_blocks()[k].text@),
    {
        let mut i: usize = 0;
        while i < self.blocks.len()
            invariant
                0 <= i <= self.blocks@.len(),
                forall|k: int|
                    0 <= k < i ==> !((#[trigger] self.blocks@[k]).block_type is Text
                        && !crate::text::raw_blank(self.blocks@[k].text@)),
            decreases self.blocks@.len() - i,
        {
            let b = &self.blocks[i];
            match b.block_type {
                ContentBlockType::Text => {
                    if !crate::text::is_raw_blank(b.text.as_str()) {
                        return true;
                    }
                },
                ContentBlockType::ToolUse => {},
            }
            i = i + 1;
        }
        false
    }

    /// Whether some block is a tool use.
    pub fn has_tool_use(&self) -> (r: bool)
        ensures
            r == exists|k: int|
                0 <= k < self.spec_blocks().len() && (#[trigger] self.spec_blocks()[
                    k
                ]).block_type is ToolUse,
    {
        let mut i: usize = 0;
        while i < self.blocks.len()
            invariant
                0 <= i <= self.blocks@.len(),
                forall|k: int| 0 <= k < i ==> !((#[trigger] self.blocks@[k]).block_type
                    is ToolUse),
            decreases self.blocks@.len() - i,
        {
            match self.blocks[i].block_type {
                ContentBlockType::ToolUse => {
                    return true;
                },
                ContentBlockType::Text => {},
            }
            i = i + 1;
        }
        false
    }

    /// Drops every block and resets the index counter.
    pub fn reset(&mut self)
        ensures
            final(self).spec_blocks() == Seq::<ContentBlock>::empty(),
            final(self).wf(),
    {
        self.blocks = Vec::new();
        self.current_index = 0;
    }
}

} // verus!

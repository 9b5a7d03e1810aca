//! Memoization of tool-schema conversions, keyed by tool name.
//!
//! The cache here is the sequential core, mutated through `&mut self` so
//! that hits and misses carry exact contracts; a copy-on-write snapshot
//! published through `&self` could not state its update here. Sharing a
//! snapshot across readers is the embedding program's concern.

use crate::claude::ClaudeTool;
use crate::gemini::GeminiFunctionDeclaration;
use crate::text::str_eq;
use vstd::prelude::*;

verus! {

broadcast use vstd::seq::group_seq_axioms, vstd::std_specs::vec::group_vec_axioms;

/// The tool-schema cache: tool name to converted declaration, names unique.
pub struct ToolSchemaCache {
    entries: Vec<(String, GeminiFunctionDeclaration)>,
}

/// Cache statistics: the entry count and the cached tool names.
pub struct CacheStats {
    pub total_entries: usize,
    pub tools: Vec<String>,
}

/// Whether some entry carries the given name.
pub open spec fn spec_has_name(
    entries: Seq<(String, GeminiFunctionDeclaration)>,
    name: Seq<char>,
) -> bool {
    exists|k: int| 0 <= k < entries.len() && (#[trigger] entries[k]).0@ == name
}

/// The declaration cached under `name`: the first match.
pub open spec fn spec_cache_find(
    entries: Seq<(String, GeminiFunctionDeclaration)>,
    name: Seq<char>,
) -> Option<GeminiFunctionDeclaration>
    decreases entries.len(),
{
    if entries.len() == 0 {
        None
    } else if entries[0].0@ == name {
        Some(entries[0].1)
    } else {
        spec_cache_find(entries.skip(1), name)
    }
}

proof fn lemma_cache_find_skip(
    entries: Seq<(String, GeminiFunctionDeclaration)>,
    name: Seq<char>,
    i: int,
)
    requires
        0 <= i <= entries.len(),
        forall|k: int| 0 <= k < i ==> (#[trigger] entries[k]).0@ != name,
    ensures
        spec_cache_find(entries, name) == spec_cache_find(entries.skip(i), name),
    decreases i,
{
    reveal_with_fuel(spec_cache_find, 3);
    if i > 0 {
        assert(entries.skip(i - 1)[0] == entries[i - 1]);
        assert(entries.skip(i - 1).skip(1) =~= entries.skip(i));
        lemma_cache_find_skip(entries, name, i - 1);
    } else {
        assert(entries.skip(0) =~= entries);
    }
}

proof fn lemma_cache_find_push(
    entries: Seq<(String, GeminiFunctionDeclaration)>,
    name: Seq<char>,
    last: (String, GeminiFunctionDeclaration),
)
    requires
        last.0@ == name,
        forall|k: int| 0 <= k < entries.len() ==> (#[trigger] entries[k]).0@ != name,
    ensures
        spec_cache_find(entries.push(last), name) == Some(last.1),
    decreases entries.len(),
{
    reveal_with_fuel(spec_cache_find, 3);
    if entries.len() == 0 {
        assert(entries.push(last)[0] == last);
    } else {
        assert(entries.push(last)[0] == entries[0]);
        assert(entries.push(last).skip(1) =~= entries.skip(1).push(last));
        assert forall|k: int|
            0 <= k < entries.skip(1).len() implies (#[trigger] entries.skip(1)[k]).0@
            != name by {
            assert(entries.skip(1)[k] == entries[k + 1]);
        }
        lemma_cache_find_push(entries.skip(1), name, last);
    }
}

impl ToolSchemaCache {
    /// The cached entries.
    pub closed spec fn spec_entries(&self) -> Seq<(String, GeminiFunctionDeclaration)> {
        self.entries@
    }

    /// Every entry's key is its declaration's name.
    pub open spec fn wf(&self) -> bool {
        forall|k: int|
            0 <= k < self.spec_entries().len() ==> (#[trigger] self.spec_entries()[k]).0@
                == self.spec_entries()[k].1.name@
    }

    /// An empty cache.
    pub fn new() -> (r: ToolSchemaCache)
        ensures
            r.spec_entries() == Seq::<(String, GeminiFunctionDeclaration)>::empty(),
            r.wf(),
    {
        ToolSchemaCache { entries: Vec::new() }
    }

    /// The declaration for `tool`: the cached one under the tool's name if
    /// there is one, else the conversion of `tool` itself, which is then
    /// cached. Conversion renames `input_schema` to `parameters` and copies
    /// the fields.
    pub fn get_or_transform(&mut self, tool: &ClaudeTool) -> (r: GeminiFunctionDeclaration)
        requires
            old(self).wf(),
        ensures
            final(self).wf(),
            spec_has_name(old(self).spec_entries(), tool.name@) ==> final(self).spec_entries()
                == old(self).spec_entries(),
            !spec_has_name(old(self).spec_entries(), tool.name@) ==> {
                &&& final(self).spec_entries().len() == old(self).spec_entries().len() + 1
                &&& final(self).spec_entries().last().0@ == tool.name@
                &&& final(self).spec_entries().last().1.name@ == tool.name@
                &&& final(self).spec_entries().last().1.description@ == tool.description@
                &&& crate::claude::spec_schema_json(
                    final(self).spec_entries().last().1.parameters,
                ) == crate::claude::spec_schema_json(tool.input_schema)
                &&& r.description@ == tool.description@
                &&& crate::claude::spec_schema_json(r.parameters)
                    == crate::claude::spec_schema_json(tool.input_schema)
                &&& forall|k: int|
                    0 <= k < old(self).spec_entries().len()
                        ==> #[trigger] final(self).spec_entries()[k] == old(
                        self,
                    ).spec_entries()[k]
            },
            spec_has_name(final(self).spec_entries(), tool.name@),
            r.name@ == tool.name@,
            ({
                let found = spec_cache_find(final(self).spec_entries(), tool.name@);
                found matches Some(d) && r.name@ == d.name@ && r.description@ == d.description@
                    && crate::claude::spec_schema_json(r.parameters)
                    == crate::claude::spec_schema_json(d.parameters)
            }),
    {
        let mut i: usize = 0;
        while i < self.entries.len()
            invariant
                0 <= i <= self.entries@.len(),
                self.entries@ == old(self).spec_entries(),
                self.wf(),
                forall|k: int| 0 <= k < i ==> (#[trigger] self.entries@[k]).0@ != tool.name@,
            decreases self.entries@.len() - i,
        {
            if str_eq(self.entries[i].0.as_str(), tool.name.as_str()) {
                proof {
                    reveal_with_fuel(spec_cache_find, 2);
                    lemma_cache_find_skip(self.entries@, tool.name@, i as int);
                    assert(self.entries@.skip(i as int)[0] == self.entries@[i as int]);
                    assert(spec_has_name(self.entries@, tool.name@));
                }
                let c = &self.entries[i].1;
                return GeminiFunctionDeclaration {
                    name: c.name.clone(),
                    description: c.description.clone(),
                    parameters: c.parameters.duplicate(),
                };
            }
            i = i + 1;
        }
        let ghost pre = self.entries@;
        let converted = GeminiFunctionDeclaration {
            name: tool.name.clone(),
            description: tool.description.clone(),
            parameters: tool.input_schema.duplicate(),
        };
        let copy = GeminiFunctionDeclaration {
            name: converted.name.clone(),
            description: converted.description.clone(),
            parameters: converted.parameters.duplicate(),
        };
        self.entries.push((tool.name.clone(), converted));
        proof {
            lemma_cache_find_push(pre, tool.name@, self.entries@.last());
            assert((#[trigger] self.entries@[self.entries@.len() - 1]).0@ == tool.name@);
            assert(spec_has_name(self.entries@, tool.name@));
        }
        copy
    }

    /// How many declarations are cached.
    pub fn len(&self) -> (r: usize)
        ensures
            r == self.spec_entries().len(),
    {
        self.entries.len()
    }

    /// Whether the cache is empty.
    pub fn is_empty(&self) -> (r: bool)
        ensures
            r == (self.spec_entries().len() == 0),
    {
        self.entries.len() == 0
    }

    /// Drops every entry.
    pub fn clear(&mut self)
        ensures
            final(self).spec_entries() == Seq::<(String, GeminiFunctionDeclaration)>::empty(),
            final(self).wf(),
    {
        self.entries = Vec::new();
    }

    /// The entry count and cached names.
    pub fn stats(&self) -> (r: CacheStats)
        ensures
            r.total_entries == self.spec_entries().len(),
            r.tools@.len() == self.spec_entries().len(),
            forall|k: int|
                0 <= k < r.tools@.len() ==> #[trigger] r.tools@[k]@ == self.spec_entries()[
                    k
                ].0@,
    {
        let mut tools: Vec<String> = Vec::new();
        let mut i: usize = 0;
        while i < self.entries.len()
            invariant
                0 <= i <= self.entries@.len(),
                tools@.len() == i,
                forall|k: int| 0 <= k < i ==> #[trigger] tools@[k]@ == self.entries@[k].0@,
            decreases self.entries@.len() - i,
        {
            tools.push(self.entries[i].0.clone());
            i = i + 1;
        }
        CacheStats { total_entries: self.entries.len(), tools }
    }
}

} // verus!

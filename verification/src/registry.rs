//! The tool registry shared by the CLI and the MCP server: the catalogue of
//! tools by wire name, and the dispatcher's decision of which tool a call
//! runs, or which engine fault it is.
//!
//! A registered tool is described by what dispatch reads of it: its name,
//! the argument keys its input schema requires, whether it mutates, and its
//! facet. The handlers themselves are held beside the registry, by index.

use crate::parser::types::strings_model;
use crate::tools::{first_missing, require_args, EngineFault, Facet};
use vstd::prelude::*;

verus! {

/// What the dispatcher knows of a registered tool.
#[derive(Debug, Clone)]
pub struct ToolEntry {
    /// Wire name, unique in a registry.
    pub name: String,
    /// Argument keys the input schema requires.
    pub required: Vec<String>,
    /// Whether the tool changes documents or files.
    pub mutates: bool,
    /// The tool's group.
    pub facet: Facet,
}

/// The names of `tools`, in order.
pub open spec fn names_of(tools: Seq<ToolEntry>) -> Seq<Seq<char>> {
    tools.map_values(|t: ToolEntry| t.name@)
}

/// The position of the tool named `name`, if one is registered.
pub open spec fn position_of(tools: Seq<ToolEntry>, name: Seq<char>) -> Option<int> {
    if exists|i: int| 0 <= i < tools.len() && tools[i].name@ == name {
        Some(choose|i: int| 0 <= i < tools.len() && tools[i].name@ == name)
    } else {
        None
    }
}

/// What dispatch decides for a call.
pub enum Route {
    /// Run the tool at this position.
    Run(int),
    /// No tool has the name.
    Unknown,
    /// The first required key missing from the arguments.
    Missing(Seq<char>),
}

/// What a call of tool `name` with argument keys `present` does: an unknown
/// name is an `UnknownTool` fault; a missing required key is a `BadArgs`
/// fault naming the first one; otherwise it runs the tool at the returned
/// position.
pub open spec fn routed(tools: Seq<ToolEntry>, name: Seq<char>, present: Seq<Seq<char>>) -> Route {
    match position_of(tools, name) {
        None => Route::Unknown,
        Some(i) => match first_missing(strings_model(tools[i].required@), present) {
            Some(k) => Route::Missing(k),
            None => Route::Run(i),
        },
    }
}

/// A tool registered under a fresh name is found under that name, at the
/// end of the catalogue, and every tool registered before keeps its place.
pub proof fn law_registered_tool_is_found(tools: Seq<ToolEntry>, e: ToolEntry, other: Seq<char>)
    requires
        forall|i: int, j: int|
            0 <= i < j < tools.len() ==> #[trigger] tools[i].name@ != #[trigger] tools[j].name@,
        !names_of(tools).contains(e.name@),
    ensures
        position_of(tools.push(e), e.name@) == Some(tools.len() as int),
        other != e.name@ ==> position_of(tools.push(e), other) == position_of(tools, other),
{
    let t = tools.push(e);
    assert(t[tools.len() as int].name@ == e.name@);
    let k = choose|k: int| 0 <= k < t.len() && t[k].name@ == e.name@;
    if k < tools.len() {
        assert(names_of(tools)[k] == tools[k].name@);
    }
    if other != e.name@ {
        if exists|i: int| 0 <= i < t.len() && t[i].name@ == other {
            let a = choose|i: int| 0 <= i < t.len() && t[i].name@ == other;
            assert(0 <= a < tools.len() && tools[a].name@ == other);
            let b = choose|i: int| 0 <= i < tools.len() && tools[i].name@ == other;
            if a < b {
                assert(tools[a].name@ != tools[b].name@);
            }
            if b < a {
                assert(tools[b].name@ != tools[a].name@);
            }
        } else {
            assert forall|i: int| 0 <= i < tools.len() implies tools[i].name@ != other by {
                assert(t[i] == tools[i]);
            }
        }
    }
}

/// The tool catalogue.
pub struct Registry {
    tools: Vec<ToolEntry>,
}

impl Registry {
    /// The registered tools, in registration order.
    pub closed spec fn entries(&self) -> Seq<ToolEntry> {
        self.tools@
    }

    /// No two tools share a name.
    pub open spec fn wf(&self) -> bool {
        forall|i: int, j: int|
            0 <= i < j < self.entries().len() ==> #[trigger] self.entries()[i].name@
                != #[trigger] self.entries()[j].name@
    }

    /// An empty registry.
    pub fn new() -> (r: Registry)
        ensures
            r.entries().len() == 0,
            r.wf(),
    {
        Registry { tools: Vec::new() }
    }

    /// Registers a tool whose name is not taken yet.
    pub fn register(&mut self, entry: ToolEntry)
        requires
            old(self).wf(),
            !names_of(old(self).entries()).contains(entry.name@),
        ensures
            final(self).entries() == old(self).entries().push(entry),
            final(self).wf(),
    {
        proof {
            assert forall|i: int| 0 <= i < self.tools@.len() implies self.tools@[i].name@
                != entry.name@ by {
                assert(names_of(self.tools@)[i] == self.tools@[i].name@);
            }
        }
        self.tools.push(entry);
    }

    /// The position of the tool named `name`.
    pub fn find(&self, name: &str) -> (r: Option<usize>)
        requires
            self.wf(),
        ensures
            match r {
                Some(i) => position_of(self.entries(), name@) == Some(i as int),
                None => position_of(self.entries(), name@) is None,
            },
    {
        let nm = crate::text::owned(name);
        let mut i: usize = 0;
        while i < self.tools.len()
            invariant
                i <= self.tools@.len(),
                nm@ == name@,
                self.wf(),
                forall|j: int| 0 <= j < i ==> self.tools@[j].name@ != name@,
            decreases self.tools.len() - i,
        {
            if self.tools[i].name == nm {
                proof {
                    let k = choose|k: int|
                        0 <= k < self.tools@.len() && self.tools@[k].name@ == name@;
                    if k > i {
                        assert(self.entries()[i as int].name@ != self.entries()[k].name@);
                    }
                    assert(k == i);
                }
                return Some(i);
            }
            i = i + 1;
        }
        None
    }

    /// The tool named `name`.
    pub fn get(&self, name: &str) -> (r: Option<&ToolEntry>)
        requires
            self.wf(),
        ensures
            match position_of(self.entries(), name@) {
                Some(i) => r matches Some(e) && *e == self.entries()[i],
                None => r is None,
            },
    {
        match self.find(name) {
            Some(i) => Some(&self.tools[i]),
            None => None,
        }
    }

    /// The registered tool names, in registration order.
    pub fn names(&self) -> (r: Vec<String>)
        ensures
            strings_model(r@) == names_of(self.entries()),
    {
        let mut out: Vec<String> = Vec::new();
        let mut i: usize = 0;
        while i < self.tools.len()
            invariant
                i <= self.tools@.len(),
                strings_model(out@) == names_of(self.tools@).take(i as int),
            decreases self.tools.len() - i,
        {
            let ghost before = out@;
            let c = self.tools[i].name.clone();
            out.push(c);
            assert(strings_model(out@) =~= strings_model(before).push(c@));
            assert(names_of(self.tools@).take(i + 1) =~= names_of(self.tools@).take(i as int).push(
                self.tools@[i as int].name@,
            ));
            i = i + 1;
        }
        assert(names_of(self.tools@).take(i as int) =~= names_of(self.tools@));
        out
    }

    /// Number of registered tools.
    pub fn len(&self) -> (n: usize)
        ensures
            n == self.entries().len(),
    {
        self.tools.len()
    }

    /// True when no tools are registered.
    pub fn is_empty(&self) -> (b: bool)
        ensures
            b == (self.entries().len() == 0),
    {
        self.tools.len() == 0
    }

    /// Dispatch decision for a call of tool `name` with argument keys
    /// `present`: the position of the tool to run, or the engine fault.
    pub fn route(&self, name: &str, present: &[String]) -> (r: Result<usize, EngineFault>)
        requires
            self.wf(),
        ensures
            match routed(self.entries(), name@, strings_model(present@)) {
                Route::Run(i) => r matches Ok(j) && j == i,
                Route::Unknown => r matches Err(EngineFault::UnknownTool(x)) && x@ == name@,
                Route::Missing(k) => r matches Err(EngineFault::BadArgs(x)) && x@
                    == "missing required argument: "@ + k,
            },
    {
        match self.find(name) {
            None => Err(EngineFault::UnknownTool(name.to_owned())),
            Some(i) => match require_args(self.tools[i].required.as_slice(), present) {
                Ok(()) => Ok(i),
                Err(e) => Err(e),
            },
        }
    }
}

} // verus!

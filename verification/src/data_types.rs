//! The record types surfaced by the store, and their mathematical views.

use vstd::prelude::*;

verus! {

/// One stored scriptlet, as surfaced to callers.
#[derive(Debug)]
pub struct ScriptletData {
    pub id: i64,
    pub name: String,
    pub command: String,
    pub description: String,
}

/// The mathematical content of a scriptlet record.
pub struct ScriptletView {
    pub id: int,
    pub name: Seq<char>,
    pub command: Seq<char>,
    pub description: Seq<char>,
}

impl View for ScriptletData {
    type V = ScriptletView;

    open spec fn view(&self) -> ScriptletView {
        ScriptletView {
            id: self.id as int,
            name: self.name@,
            command: self.command@,
            description: self.description@,
        }
    }
}

impl Clone for ScriptletData {
    fn clone(&self) -> (r: Self)
        ensures
            r@ == self@,
    {
        ScriptletData {
            id: self.id,
            name: self.name.clone(),
            command: self.command.clone(),
            description: self.description.clone(),
        }
    }
}

/// One stored tool, as surfaced to callers.
#[derive(Debug)]
pub struct ToolData {
    pub name: String,
}

impl View for ToolData {
    type V = Seq<char>;

    open spec fn view(&self) -> Seq<char> {
        self.name@
    }
}

impl Clone for ToolData {
    fn clone(&self) -> (r: Self)
        ensures
            r@ == self@,
    {
        ToolData { name: self.name.clone() }
    }
}

/// The views of a sequence of scriptlet records.
pub open spec fn scriptlet_views(s: Seq<ScriptletData>) -> Seq<ScriptletView> {
    s.map_values(|d: ScriptletData| d@)
}

} // verus!

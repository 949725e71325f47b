//! What the printer remembers about the blocks it is inside of.
use vstd::prelude::*;

verus! {

#[derive(Debug, Clone, Copy, PartialEq, Eq, Structural)]
pub enum BlockKind {
    Normal,
    Switch,
    TypeBody,
    EnumBody,
    ModuleBody,
    Initializer,
    Inline,
}

#[derive(Debug, Clone, Copy, PartialEq, Eq, Structural)]
pub struct BlockFrame {
    pub multiline: bool,
    pub kind: BlockKind,
    pub in_switch_case: bool,
    pub in_enum_constants: bool,
}

#[derive(Debug, Clone, Copy, PartialEq, Eq, Structural)]
pub enum TopLevelDirective {
    Package,
    Import,
}

#[derive(Debug, Clone, Copy, PartialEq, Eq, Structural)]
pub enum ModuleDirective {
    Requires,
    Exports,
    Opens,
    Uses,
    Provides,
}

} // verus!

//! The abstract syntax tree and the arena that stores it.
//!
//! Nodes are not owned recursively: every node lives in an `AstArena` and is
//! addressed by a stable, generation-checked `AstId`. A node references its
//! children by identifier, so later phases can traverse or replace subtrees
//! without fighting the ownership of a nested structure. The arena is
//! insert-and-look-up only; nodes are built strictly bottom-up, so every
//! child identifier a node holds resolves to a node already present.

use vstd::prelude::*;

use slotmap::Key;

use crate::file::Location;

verus! {

/// Stable identifier of a node in an `AstArena`.
#[derive(Debug, Clone, Copy, PartialEq, Eq, Structural)]
pub struct AstId(u64);

impl View for AstId {
    type V = u64;

    closed spec fn view(&self) -> u64 {
        self.0
    }
}

/// One AST node: where it came from and what it is.
#[derive(Debug)]
pub struct Ast {
    pub location: Location,
    pub kind: AstKind,
}

/// The alternatives an AST node can be. Children are arena identifiers.
/// `Match` is declared in the data model, but no grammar builds it yet.
#[derive(Debug)]
pub enum AstKind {
    Name { name: String },
    Let { pattern: AstPattern, value: Option<AstId> },
    Match { scrutinee: AstId, arms: Vec<AstMatchArm> },
    BinaryOperator { left: AstId, operator: BinaryOperator, right: AstId },
}

/// A pattern: its own small AST-like kind, carrying its own location. The
/// optional type annotation is an expression node in the arena.
#[derive(Debug)]
pub struct AstPattern {
    pub location: Location,
    pub kind: AstPatternKind,
}

/// The alternatives a pattern can be.
#[derive(Debug)]
pub enum AstPatternKind {
    Name { name: String, typ: Option<AstId> },
}

/// A binary operator occurrence: where it came from and which operator.
#[derive(Debug)]
pub struct BinaryOperator {
    pub location: Location,
    pub kind: BinaryOperatorKind,
}

/// The binary operators the grammar knows.
#[derive(Debug, Clone, Copy, PartialEq, Eq, Structural)]
pub enum BinaryOperatorKind {
    Pipe,
}

/// One arm of a `Match` node: a pattern and the expression it selects.
#[derive(Debug)]
pub struct AstMatchArm {
    pub location: Location,
    pub pattern: AstPattern,
    pub expression: AstId,
}

/// `id` resolves in `m` to a node whose location `loc` covers.
pub open spec fn child_in(m: Map<u64, Ast>, loc: Location, id: AstId) -> bool {
    &&& m.contains_key(id@)
    &&& loc.contains(m[id@].location)
    &&& m[id@].location.wf()
}

/// The pattern's location and type annotation lie within `loc`.
pub open spec fn pattern_in(m: Map<u64, Ast>, loc: Location, p: AstPattern) -> bool {
    &&& loc.contains(p.location)
    &&& p.location.wf()
    &&& match p.kind {
        AstPatternKind::Name { name, typ } => typ matches Some(t) ==> child_in(m, loc, t),
    }
}

/// One arm's parts lie within `loc` and resolve in `m`.
pub open spec fn arm_in(m: Map<u64, Ast>, loc: Location, arm: AstMatchArm) -> bool {
    &&& loc.contains(arm.location)
    &&& arm.location.wf()
    &&& pattern_in(m, loc, arm.pattern)
    &&& child_in(m, loc, arm.expression)
}

/// A node is sound with respect to the arena contents `m`: its location is
/// ordered, and every child it references resolves in `m` to a node whose
/// location it covers. A `BinaryOperator` node's location is exactly the
/// join of its operands' locations — it starts where the left operand
/// starts, on its line, and ends where the right operand ends, with the
/// operator token sitting between the two.
pub open spec fn node_ok(m: Map<u64, Ast>, node: Ast) -> bool {
    &&& node.location.wf()
    &&& match node.kind {
        AstKind::Name { name } => true,
        AstKind::Let { pattern, value } => {
            &&& pattern_in(m, node.location, pattern)
            &&& (value matches Some(v) ==> child_in(m, node.location, v))
        },
        AstKind::Match { scrutinee, arms } => {
            &&& child_in(m, node.location, scrutinee)
            &&& forall|k: int| 0 <= k < arms.len() ==> arm_in(m, node.location, #[trigger] arms[k])
        },
        AstKind::BinaryOperator { left, operator, right } => {
            &&& child_in(m, node.location, left)
            &&& node.location.contains(operator.location)
            &&& operator.location.wf()
            &&& child_in(m, node.location, right)
            &&& node.location.span.start == m[left@].location.span.start
            &&& node.location.span.end == m[right@].location.span.end
            &&& node.location.line == m[left@].location.line
            &&& m[left@].location.span.end <= operator.location.span.start
            &&& operator.location.span.end <= m[right@].location.span.start
        },
    }
}

/// Every node in the arena is sound: no dangling identifier, and every
/// node's location covers the locations of the children it references.
pub open spec fn nodes_well_formed(m: Map<u64, Ast>) -> bool {
    forall|k: u64| m.contains_key(k) ==> node_ok(m, #[trigger] m[k])
}

/// Soundness of a node is kept when the arena grows by a fresh entry.
pub proof fn lemma_node_ok_grow(m: Map<u64, Ast>, k: u64, inserted: Ast, node: Ast)
    requires
        node_ok(m, node),
        !m.contains_key(k),
    ensures
        node_ok(m.insert(k, inserted), node),
{
}

/// Inserting a node that is sound in the grown arena keeps the whole arena
/// well formed.
pub proof fn lemma_insert_preserves_well_formed(m: Map<u64, Ast>, k: u64, node: Ast)
    requires
        nodes_well_formed(m),
        !m.contains_key(k),
        node_ok(m.insert(k, node), node),
    ensures
        nodes_well_formed(m.insert(k, node)),
{
    let m2 = m.insert(k, node);
    assert forall|j: u64| m2.contains_key(j) implies node_ok(m2, #[trigger] m2[j]) by {
        if j != k {
            lemma_node_ok_grow(m, k, node, m[j]);
        }
    }
}

/// The identifiers a node references directly.
pub open spec fn references(node: Ast, id: u64) -> bool {
    match node.kind {
        AstKind::Name { name } => false,
        AstKind::Let { pattern, value } => {
            ||| (value matches Some(v) && v@ == id)
            ||| (match pattern.kind {
                AstPatternKind::Name { name, typ } => typ matches Some(t) && t@ == id,
            })
        },
        AstKind::Match { scrutinee, arms } => {
            ||| scrutinee@ == id
            ||| exists|k: int|
                0 <= k < arms.len() && {
                    let arm = #[trigger] arms[k];
                    arm.expression@ == id || (match arm.pattern.kind {
                        AstPatternKind::Name { name, typ } => typ matches Some(t) && t@ == id,
                    })
                }
        },
        AstKind::BinaryOperator { left, operator, right } => left@ == id || right@ == id,
    }
}

/// `path` walks parent-to-child references through `m`.
pub open spec fn descendant_chain(m: Map<u64, Ast>, path: Seq<u64>) -> bool {
    forall|j: int|
        0 <= j < path.len() - 1 ==> m.contains_key(#[trigger] path[j]) && references(
            m[path[j]],
            path[j + 1],
        )
}

/// In a well-formed arena, a node's location covers the location of every
/// descendant: along any chain of child references, the first node's
/// location contains the last node's.
pub proof fn lemma_location_contains_descendants(m: Map<u64, Ast>, path: Seq<u64>)
    requires
        nodes_well_formed(m),
        path.len() >= 1,
        m.contains_key(path[0]),
        descendant_chain(m, path),
    ensures
        m.contains_key(path.last()),
        m[path[0]].location.contains(m[path.last()].location),
    decreases path.len(),
{
    if path.len() == 1 {
        assert(m[path[0]].location.wf());
    } else {
        let head = m[path[0]];
        let next = path[1];
        assert(node_ok(m, head));
        assert(references(head, next));
        assert(m.contains_key(next) && head.location.contains(m[next].location)) by {
            match head.kind {
                AstKind::Name { name } => {
                    assert(false);
                },
                AstKind::Let { pattern, value } => {
                },
                AstKind::Match { scrutinee, arms } => {
                    if scrutinee@ != next {
                        let k = choose|k: int|
                            0 <= k < arms.len() && {
                                let arm = #[trigger] arms[k];
                                arm.expression@ == next || (match arm.pattern.kind {
                                    AstPatternKind::Name { name, typ } => typ matches Some(t)
                                        && t@ == next,
                                })
                            };
                        assert(arm_in(m, head.location, arms[k]));
                    }
                },
                AstKind::BinaryOperator { left, operator, right } => {
                },
            }
        }
        let rest = path.drop_first();
        assert(descendant_chain(m, rest)) by {
            assert forall|j: int|
                0 <= j < rest.len() - 1 implies m.contains_key(#[trigger] rest[j]) && references(
                m[rest[j]],
                rest[j + 1],
            ) by {
                assert(rest[j] == path[j + 1]);
                assert(rest[j + 1] == path[j + 2]);
            }
        }
        lemma_location_contains_descendants(m, rest);
        assert(rest.last() == path.last());
        crate::file::lemma_contains_transitive(
            head.location,
            m[next].location,
            m[path.last()].location,
        );
    }
}

/// The arena of AST nodes, backed by a `slotmap::SlotMap` whose
/// generation-checked keys the `AstId` values carry in integer form. The
/// parser only inserts; identifiers are never reused within one parse. The
/// verifier does not look inside the slot map; the arena's methods are
/// specified over `arena_contents`.
#[verifier::external_body]
pub struct AstArena {
    nodes: slotmap::SlotMap<slotmap::DefaultKey, Ast>,
}

/// The nodes an arena holds, keyed by the integer form of the slot key
/// under which each node was inserted.
pub uninterp spec fn arena_contents(a: AstArena) -> Map<u64, Ast>;

impl AstArena {
    /// The stored nodes, keyed by the integer form of their identifiers.
    pub open spec fn contents(self) -> Map<u64, Ast> {
        arena_contents(self)
    }

    /// The arena holds finitely many nodes and every one of them is sound.
    pub open spec fn wf(self) -> bool {
        &&& self.contents().dom().finite()
        &&& nodes_well_formed(self.contents())
    }

    /// An empty arena. Relies on `slotmap::SlotMap::new`: the new map holds
    /// no entries.
    #[verifier::external_body]
    pub fn new() -> (r: AstArena)
        ensures
            arena_contents(r).dom() == Set::<u64>::empty(),
    {
        AstArena { nodes: slotmap::SlotMap::new() }
    }

    /// The number of stored nodes. Relies on `slotmap::SlotMap::len`.
    #[verifier::external_body]
    pub fn len(&self) -> (r: usize)
        ensures
            r == arena_contents(*self).dom().len(),
    {
        self.nodes.len()
    }

    /// Store a node and receive its identifier, fresh among all identifiers
    /// this arena has handed out. Relies on `slotmap::SlotMap::insert`: it
    /// stores the value under a key distinct from every live key and returns
    /// that key, here carried as its `KeyData::as_ffi` integer, which
    /// `from_ffi` maps back to the same key. `insert` panics when the map
    /// already holds 2^32 - 2 entries; the precondition keeps that
    /// unreachable.
    #[verifier::external_body]
    pub fn insert(&mut self, node: Ast) -> (r: AstId)
        requires
            arena_contents(*old(self)).dom().len() < 0xffff_fffe,
        ensures
            !arena_contents(*old(self)).contains_key(r@),
            arena_contents(*final(self)) == arena_contents(*old(self)).insert(r@, node),
    {
        AstId(self.nodes.insert(node).data().as_ffi())
    }

    /// Look up a node by its identifier. Relies on `slotmap::SlotMap::get`
    /// together with `KeyData::from_ffi`: a key that `insert` returned,
    /// rebuilt from its integer form, reaches exactly the entry stored under
    /// it.
    #[verifier::external_body]
    pub fn get(&self, id: AstId) -> (r: Option<&Ast>)
        requires
            arena_contents(*self).contains_key(id@),
        ensures
            r is Some,
            r matches Some(node) ==> *node == arena_contents(*self)[id@],
    {
        self.nodes.get(slotmap::KeyData::from_ffi(id.0).into())
    }
}

} // verus!

//! The ladder of rungs that a build and a deployment climb.
use serde_json::Value;
use vstd::prelude::*;
use vstd::string::*;

use crate::json::{
    all_contents, array_value, contents, members, no_members, null_value, object_tree, object_value,
    put, text_value, unsigned_value, JsonTree,
};
use crate::text::same;

verus! {

/// The name of a rung.
#[derive(Debug, PartialEq)]
pub struct RungId {
    /// The canonical name
    pub name: String,
}

/// The rungs that every ladder has.
#[derive(Clone, Copy, Debug, PartialEq, Eq, Structural)]
pub enum CoreRung {
    /// Before the artifacts of a build
    MaterialiseBefore,
    /// The tasks of a build
    MaterialiseTasks,
    /// The artifacts of a build
    MaterialiseArtifacts,
    /// After a deployment
    DeployAfter,
}

impl RungId {
    /// Whether two names are the same.
    pub open spec fn same(self, other: Self) -> bool {
        self.name@ == other.name@
    }

    /// Its serialised form.
    pub open spec fn tree(self) -> JsonTree {
        JsonTree::Text(self.name@)
    }

    /// The canonical name.
    pub fn id(&self) -> (r: &str)
        ensures
            r@ == self.name@,
    {
        self.name.as_str()
    }

    /// Another one of the same name.
    pub fn copy(&self) -> (r: Self)
        ensures
            r.same(*self),
    {
        RungId { name: self.name.clone() }
    }

    /// Whether two names are the same.
    pub fn is(&self, other: &RungId) -> (r: bool)
        ensures
            r == self.same(*other),
    {
        same(self.name.as_str(), other.name.as_str())
    }
}

impl CoreRung {
    /// The canonical name.
    pub open spec fn id(self) -> Seq<char> {
        match self {
            CoreRung::MaterialiseBefore => "materialise.before"@,
            CoreRung::MaterialiseTasks => "materialise.tasks"@,
            CoreRung::MaterialiseArtifacts => "materialise.artifacts"@,
            CoreRung::DeployAfter => "deploy.after"@,
        }
    }

    /// Its name in views.
    pub open spec fn label(self) -> Seq<char> {
        match self {
            CoreRung::MaterialiseBefore => "MaterialiseBefore"@,
            CoreRung::MaterialiseTasks => "MaterialiseTasks"@,
            CoreRung::MaterialiseArtifacts => "MaterialiseArtifacts"@,
            CoreRung::DeployAfter => "DeployAfter"@,
        }
    }

    /// The rung under its canonical name.
    pub fn rung(self) -> (r: RungId)
        ensures
            r.name@ == self.id(),
    {
        let name = match self {
            CoreRung::MaterialiseBefore => "materialise.before",
            CoreRung::MaterialiseTasks => "materialise.tasks",
            CoreRung::MaterialiseArtifacts => "materialise.artifacts",
            CoreRung::DeployAfter => "deploy.after",
        };
        RungId { name: name.to_owned() }
    }

    /// Its name in views.
    pub fn label_name(self) -> (r: &'static str)
        ensures
            r@ == self.label(),
    {
        match self {
            CoreRung::MaterialiseBefore => "MaterialiseBefore",
            CoreRung::MaterialiseTasks => "MaterialiseTasks",
            CoreRung::MaterialiseArtifacts => "MaterialiseArtifacts",
            CoreRung::DeployAfter => "DeployAfter",
        }
    }
}

/// A rung as it was declared, with the rungs beneath it.
#[derive(Debug, PartialEq)]
pub struct LadderRung {
    /// Its name
    pub id: RungId,
    /// The rungs beneath it
    pub children: Vec<LadderRung>,
}

/// A rung in climbing order.
#[derive(Debug, PartialEq)]
pub struct FlatRung {
    /// Its name
    pub id: RungId,
    /// How many rungs it stands beneath
    pub depth: u8,
    /// Which core rung it is, if any
    pub core: Option<CoreRung>,
    /// The rung it stands beneath
    pub parent: Option<RungId>,
}

/// A ladder in climbing order.
#[derive(Debug, PartialEq)]
pub struct ExecutionLadder {
    /// Its name
    pub name: String,
    /// Its rungs
    pub flattened: Vec<FlatRung>,
}

impl ExecutionLadder {
    /// Whether the rung at `index` is the first one named `id`.
    pub open spec fn stands_at(self, id: RungId, index: int) -> bool {
        &&& 0 <= index < self.flattened@.len()
        &&& self.flattened@[index].id.same(id)
        &&& forall|j: int| 0 <= j < index ==> !(#[trigger] self.flattened@[j]).id.same(id)
    }

    /// Whether the ladder has a rung of that name.
    pub open spec fn has(self, id: RungId) -> bool {
        exists|i: int| 0 <= i < self.flattened@.len() && (#[trigger] self.flattened@[i]).id.same(id)
    }

    /// Whether a rung stands beneath the one of that name.
    pub open spec fn contains_others(self, id: RungId) -> bool {
        exists|i: int|
            0 <= i < self.flattened@.len() && (#[trigger] self.flattened@[i]).parent is Some
                && self.flattened@[i].parent->0.same(id)
    }

    /// Whether an action may stand at the rung of that name.
    pub open spec fn accepts(self, id: RungId) -> bool {
        self.has(id) && !self.contains_others(id)
    }

    /// The place of a rung in climbing order.
    pub fn position(&self, id: &RungId) -> (r: Option<usize>)
        ensures
            r matches Some(i) ==> self.stands_at(*id, i as int),
            r is None <==> !self.has(*id),
    {
        let mut i: usize = 0;
        while i < self.flattened.len()
            invariant
                0 <= i <= self.flattened@.len(),
                forall|j: int| 0 <= j < i ==> !(#[trigger] self.flattened@[j]).id.same(*id),
            decreases self.flattened@.len() - i,
        {
            if self.flattened[i].id.is(id) {
                assert(self.flattened@[i as int].id.same(*id));
                return Some(i);
            }
            i += 1;
        }
        None
    }

    /// Whether the ladder has a rung of that name.
    pub fn contains(&self, id: &RungId) -> (r: bool)
        ensures
            r == self.has(*id),
    {
        self.position(id).is_some()
    }

    /// Whether a rung stands beneath the one of that name.
    pub fn is_container(&self, id: &RungId) -> (r: bool)
        ensures
            r == self.contains_others(*id),
    {
        let mut i: usize = 0;
        while i < self.flattened.len()
            invariant
                0 <= i <= self.flattened@.len(),
                forall|j: int|
                    0 <= j < i ==> !((#[trigger] self.flattened@[j]).parent is Some
                        && self.flattened@[j].parent->0.same(*id)),
            decreases self.flattened@.len() - i,
        {
            if let Some(parent) = &self.flattened[i].parent {
                if parent.is(id) {
                    assert(self.flattened@[i as int].parent is Some);
                    return true;
                }
            }
            i += 1;
        }
        false
    }
}

impl FlatRung {
    /// Its serialised form.
    pub open spec fn tree(self) -> JsonTree {
        object_tree(
            no_members().push(("id"@, self.id.tree())).push(
                ("depth"@, JsonTree::Integer(self.depth as int)),
            ).push(
                (
                    "core"@,
                    match self.core {
                        Some(core) => JsonTree::Text(core.id()),
                        None => JsonTree::Null,
                    },
                ),
            ).push(
                (
                    "parent"@,
                    match self.parent {
                        Some(parent) => parent.tree(),
                        None => JsonTree::Null,
                    },
                ),
            ),
        )
    }
}

/// Serialises a rung.
pub(crate) fn flat_rung_value(v: &FlatRung) -> (r: Value)
    ensures
        contents(r) == v.tree(),
{
    let mut m = members();
    put(&mut m, "id", rung_id_value(&v.id));
    put(&mut m, "depth", unsigned_value(v.depth as u64));
    put(
        &mut m,
        "core",
        match v.core {
            Some(core) => text_value(core.rung().name.as_str()),
            None => null_value(),
        },
    );
    put(
        &mut m,
        "parent",
        match &v.parent {
            Some(parent) => rung_id_value(parent),
            None => null_value(),
        },
    );
    object_value(m)
}

/// The serialised forms of rungs.
pub open spec fn flat_rung_trees(list: Seq<FlatRung>) -> Seq<JsonTree> {
    Seq::new(list.len(), |i: int| list[i].tree())
}

impl ExecutionLadder {
    /// Its serialised form.
    pub open spec fn tree(self) -> JsonTree {
        object_tree(
            no_members().push(("name"@, JsonTree::Text(self.name@))).push(
                ("flattened"@, JsonTree::Array(flat_rung_trees(self.flattened@))),
            ),
        )
    }
}

/// Serialises a ladder.
pub(crate) fn ladder_value(v: &ExecutionLadder) -> (r: Value)
    ensures
        contents(r) == v.tree(),
{
    let mut rungs: Vec<Value> = Vec::new();
    let mut i: usize = 0;
    while i < v.flattened.len()
        invariant
            0 <= i <= v.flattened@.len(),
            rungs@.len() == i,
            forall|j: int|
                0 <= j < i ==> contents(#[trigger] rungs@[j]) == v.flattened@[j].tree(),
        decreases v.flattened@.len() - i,
    {
        rungs.push(flat_rung_value(&v.flattened[i]));
        i += 1;
    }
    assert(all_contents(rungs@) =~= flat_rung_trees(v.flattened@));
    let mut m = members();
    put(&mut m, "name", text_value(v.name.as_str()));
    put(&mut m, "flattened", array_value(rungs));
    object_value(m)
}

/// Serialises the name of a rung.
pub(crate) fn rung_id_value(v: &RungId) -> (r: Value)
    ensures
        contents(r) == v.tree(),
{
    text_value(v.name.as_str())
}

} // verus!

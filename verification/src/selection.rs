//! Entity selection for the editor: which entity is selected, and how the
//! marker on selected entities follows the selection.

use crate::entity_store::same_entity;
use bevy::ecs::entity::Entity;
use vstd::prelude::*;

verus! {

/// Resource tracking the currently selected entity in the editor.
pub struct EditorSelection {
    /// The currently selected entity, if any.
    pub selected_entity: Option<Entity>,
}

impl Default for EditorSelection {
    fn default() -> (selection: Self)
        ensures
            selection.selected_entity is None,
    {
        EditorSelection { selected_entity: None }
    }
}

/// What has to happen to the markers so that exactly the selected entity
/// carries one.
pub struct MarkerChanges {
    /// Marked entities that lose the marker, in the order they were listed.
    pub remove: Vec<Entity>,
    /// The entity that gets the marker, if the selected one has none yet.
    pub insert: Option<Entity>,
}

/// `entity` carries a marker that the selection does not call for.
pub open spec fn is_stale(selection: EditorSelection, entity: Entity) -> bool {
    selection.selected_entity != Some(entity)
}

/// Syncs the marker on selected entities with the selection.
///
/// `marked` lists the entities that carry the marker now. Each of them other
/// than the selected entity loses it; the selected entity gets it unless it
/// is among them.
pub fn sync_selection_marker(selection: &EditorSelection, marked: &Vec<Entity>) -> (changes:
    MarkerChanges)
    ensures
        changes.remove@ == marked@.filter(|entity: Entity| is_stale(*selection, entity)),
        changes.insert == match selection.selected_entity {
            Some(entity) if !marked@.contains(entity) => Some(entity),
            _ => None::<Entity>,
        },
{
    let ghost stale = |entity: Entity| is_stale(*selection, entity);
    let mut remove: Vec<Entity> = Vec::new();
    let mut selected_is_marked = false;
    let mut i: usize = 0;
    while i < marked.len()
        invariant
            i <= marked.len(),
            stale == |entity: Entity| is_stale(*selection, entity),
            remove@ == marked@.take(i as int).filter(stale),
            selected_is_marked == (selection.selected_entity matches Some(entity)
                && marked@.take(i as int).contains(entity)),
        decreases marked.len() - i,
    {
        let entity = marked[i];
        let is_selected = match selection.selected_entity {
            Some(selected) => same_entity(selected, entity),
            None => false,
        };
        proof {
            let shorter = marked@.take(i as int);
            let longer = marked@.take(i + 1);
            assert(longer.drop_last() =~= shorter);
            assert(longer.last() == entity);
            reveal_with_fuel(Seq::filter, 2);
            assert(longer.filter(stale) == if stale(entity) {
                shorter.filter(stale).push(entity)
            } else {
                shorter.filter(stale)
            });
            assert(stale(entity) == !is_selected);
            assert(forall|e: Entity| longer.contains(e) <==> shorter.contains(e) || e == entity) by {
                assert forall|e: Entity| longer.contains(e) implies shorter.contains(e) || e
                    == entity by {
                    let k = choose|k: int| 0 <= k < longer.len() && longer[k] == e;
                    if k < i {
                        assert(shorter[k] == e);
                    }
                }
                assert forall|e: Entity| shorter.contains(e) || e == entity implies longer.contains(
                    e,
                ) by {
                    if e == entity {
                        assert(longer[i as int] == e);
                    } else {
                        let k = choose|k: int| 0 <= k < shorter.len() && shorter[k] == e;
                        assert(longer[k] == e);
                    }
                }
            }
        }
        if is_selected {
            selected_is_marked = true;
        } else {
            remove.push(entity);
        }
        i += 1;
    }
    proof {
        assert(marked@.take(i as int) =~= marked@);
    }
    let insert = match selection.selected_entity {
        Some(entity) => if selected_is_marked {
            None
        } else {
            Some(entity)
        },
        None => None,
    };
    MarkerChanges { remove, insert }
}

} // verus!

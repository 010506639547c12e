use vstd::prelude::*;
use crate::action_optimization::net::RelationType;
use crate::action_optimization::util::{
    as_ints,
    get_all_bottom_sources,
    get_all_destinations,
    get_all_sources,
    get_all_top_sources,
    get_destination,
    get_top_destination,
    lemma_nearest_before,
    nearest_before,
    search_parent_tree,
    spec_all_bottom_sources,
    spec_all_destinations,
    spec_all_sources,
    spec_all_top_sources,
    spec_destination,
    spec_top_card,
    spec_top_destination,
    top_card,
};
use crate::actions::base::All;
use crate::board::cards::NumberCard;
use crate::board::fieldposition::FieldPosition;
use crate::board::positions::{Position, PositionNoGoal};

verus! {

/// The values of the entries that hold one, in their order.
pub open spec fn present_values(entries: Seq<Option<int>>) -> Seq<int>
    decreases entries.len(),
{
    if entries.len() == 0 {
        Seq::empty()
    } else {
        let before = present_values(entries.drop_last());
        match entries.last() {
            Some(value) => before.push(value),
            None => before,
        }
    }
}

/// Whether `action` puts a card on `position`.
pub open spec fn writes_to(action: All, position: PositionNoGoal) -> bool {
    spec_all_destinations(action).contains(position.widen())
}

/// Whether `action` takes a card from `destination`.
pub open spec fn takes_from(action: All, destination: Position) -> bool {
    exists|i: int|
        0 <= i < spec_all_sources(action).len() && (#[trigger] spec_all_sources(action)[i]).widen()
            == destination
}

/// Whether the topmost card that `action` puts down comes to lie directly
/// under the cell `above`.
pub open spec fn sockets(action: All, above: FieldPosition) -> bool {
    spec_top_destination(action) matches Some(Position::Field(destination)) && spec_top_card(
        destination,
    ) == above
}

/// Whether the lowest card that `action` takes lay directly on the cell `below`.
pub open spec fn clears(action: All, below: FieldPosition) -> bool {
    exists|i: int|
        0 <= i < spec_all_bottom_sources(action).len() && #[trigger] spec_all_bottom_sources(
            action,
        )[i] == PositionNoGoal::Field(spec_top_card(below))
}

/// Whether `action` sends the card one rank below `card`, of the same suit, to the goal.
pub open spec fn precedes_in_goal(action: All, card: NumberCard) -> bool {
    action matches All::Goal(other) && other.card.value + 1 == card.value && other.card.suit
        == card.suit
}

/// The last action before `current_action` that put a card on `position`.
pub open spec fn spec_move_parent(actions: Seq<All>, current_action: int, position: PositionNoGoal)
    -> Option<int> {
    nearest_before(actions, current_action, |a: All| writes_to(a, position))
}

/// For each source of the action at `current_action` that an earlier action
/// wrote, the last action that did, in the order of the sources.
pub open spec fn spec_move_parents(actions: Seq<All>, current_action: int) -> Seq<int> {
    present_values(
        spec_all_sources(actions[current_action]).map_values(
            |position: PositionNoGoal| spec_move_parent(actions, current_action, position),
        ),
    )
}

/// The last earlier action that took a card from the cell that the action at
/// `current_action` fills; none where that action is a move that only took
/// the cell along with cards below it.
pub open spec fn spec_unblocking_parent(actions: Seq<All>, current_action: int) -> Option<int> {
    match spec_destination(actions[current_action]) {
        None => None,
        Some(destination) => match nearest_before(
            actions,
            current_action,
            |a: All| takes_from(a, destination),
        ) {
            None => None,
            Some(index) => match actions[index] {
                All::Move(m) => if Position::Field(m.spec_source()) == destination {
                    Some(index)
                } else {
                    None
                },
                _ => Some(index),
            },
        },
    }
}

/// Whether `left` comes before `right`, an absent index before every present one.
pub open spec fn index_before(left: Option<int>, right: Option<int>) -> bool {
    match (left, right) {
        (None, Some(_)) => true,
        (Some(a), Some(b)) => a < b,
        _ => false,
    }
}

/// The last earlier action that put down the card on which the action at
/// `current_action` puts its own, unless the cell was emptied since.
pub open spec fn spec_socket_parent(actions: Seq<All>, current_action: int) -> Option<int> {
    match spec_destination(actions[current_action]) {
        Some(Position::Field(above)) => {
            let added_socket = nearest_before(
                actions,
                current_action,
                |a: All| sockets(a, above),
            );
            if index_before(added_socket, spec_unblocking_parent(actions, current_action)) {
                None
            } else {
                added_socket
            }
        },
        _ => None,
    }
}

/// The later of socket parent and unblocking parent, with its kind; the
/// unblocking parent where both are the same action.
pub open spec fn spec_destination_parent(actions: Seq<All>, current_action: int) -> Option<
    (int, RelationType),
> {
    let socket_parent = spec_socket_parent(actions, current_action);
    let unblock_parent = spec_unblocking_parent(actions, current_action);
    if socket_parent is None && unblock_parent is None {
        None
    } else if index_before(unblock_parent, socket_parent) {
        Some((socket_parent->Some_0, RelationType::Socket))
    } else {
        Some((unblock_parent->Some_0, RelationType::Unblock))
    }
}

/// The first of `candidates` whose action puts its lowest card on `cell`, or 0.
pub open spec fn first_supplier(actions: Seq<All>, candidates: Seq<int>, cell: FieldPosition)
    -> int
    decreases candidates.len(),
{
    if candidates.len() == 0 {
        0
    } else if spec_destination(actions[candidates[0]]) == Some(Position::Field(cell)) {
        candidates[0]
    } else {
        first_supplier(actions, candidates.drop_first(), cell)
    }
}

/// The largest of `values`, or 0.
pub open spec fn largest_or_zero(values: Seq<int>) -> int
    decreases values.len(),
{
    if values.len() == 0 {
        0
    } else {
        let before = largest_or_zero(values.drop_last());
        if values.last() > before {
            values.last()
        } else {
            before
        }
    }
}

/// The index from which on an action can have cleared the cell `cell` for
/// the action at `current_action`: for a dragon kill the move parent that
/// supplied `cell`, else the latest move parent; 0 where there is none.
pub open spec fn spec_latest_move(actions: Seq<All>, current_action: int, cell: FieldPosition)
    -> int {
    let latest_moves = spec_move_parents(actions, current_action);
    if actions[current_action] is DragonKill {
        first_supplier(actions, latest_moves, cell)
    } else {
        largest_or_zero(latest_moves)
    }
}

/// The last earlier action that took away what lay on `cell`, if it is no
/// earlier than the action that supplied the card.
pub open spec fn spec_clear_parent(actions: Seq<All>, current_action: int, position: PositionNoGoal)
    -> Option<int> {
    match position {
        PositionNoGoal::Bunker { .. } => None,
        PositionNoGoal::Field(cell) => match nearest_before(
            actions,
            current_action,
            |a: All| clears(a, cell),
        ) {
            Some(index) => if index >= spec_latest_move(actions, current_action, cell) {
                Some(index)
            } else {
                None
            },
            None => None,
        },
    }
}

/// For each top source of the action at `current_action`, the action that
/// cleared it, where there is one, in the order of the sources.
pub open spec fn spec_clear_parents(actions: Seq<All>, current_action: int) -> Seq<int> {
    present_values(
        spec_all_top_sources(actions[current_action]).map_values(
            |position: PositionNoGoal| spec_clear_parent(actions, current_action, position),
        ),
    )
}

/// For a goal action of a rank above 1, the last earlier goal action of the
/// same suit and the rank below.
pub open spec fn spec_goal_parent(actions: Seq<All>, current_action: int) -> Option<int> {
    match actions[current_action] {
        All::Goal(goal) => if goal.card.value > 1 {
            nearest_before(actions, current_action, |a: All| precedes_in_goal(a, goal.card))
        } else {
            None
        },
        _ => None,
    }
}

/// Every index that `nearest_before` yields lies before `current_action`.
pub proof fn lemma_present_values_bound(entries: Seq<Option<int>>, bound: int)
    requires
        forall|i: int|
            0 <= i < entries.len() ==> (#[trigger] entries[i] matches Some(v) ==> 0 <= v < bound),
    ensures
        present_values(entries).len() <= entries.len(),
        forall|i: int|
            0 <= i < present_values(entries).len() ==> 0 <= #[trigger] present_values(entries)[i]
                < bound,
    decreases entries.len(),
{
    if entries.len() > 0 {
        lemma_present_values_bound(entries.drop_last(), bound);
    }
}

fn writes_position(action: &All, position: &PositionNoGoal) -> (result: bool)
    ensures
        result == writes_to(*action, *position),
{
    let destinations = get_all_destinations(*action);
    let mut i: usize = 0;
    while i < destinations.len()
        invariant
            i <= destinations@.len(),
            destinations@ == spec_all_destinations(*action),
            forall|j: int| 0 <= j < i ==> destinations@[j] != position.widen(),
        decreases destinations@.len() - i,
    {
        if destinations[i].eq_source(position) {
            return true;
        }
        i = i + 1;
    }
    false
}

fn takes_position(action: &All, destination: &Position) -> (result: bool)
    ensures
        result == takes_from(*action, *destination),
{
    let sources = get_all_sources(*action);
    let mut i: usize = 0;
    while i < sources.len()
        invariant
            i <= sources@.len(),
            sources@ == spec_all_sources(*action),
            forall|j: int| 0 <= j < i ==> sources@[j].widen() != *destination,
        decreases sources@.len() - i,
    {
        if sources[i].eq_position(destination) {
            return true;
        }
        i = i + 1;
    }
    false
}

fn is_socket(action: &All, above: &FieldPosition) -> (result: bool)
    ensures
        result == sockets(*action, *above),
{
    if let Some(Position::Field(destination)) = get_top_destination(*action) {
        top_card(&destination) == *above
    } else {
        false
    }
}

fn is_clearing(action: &All, below: &FieldPosition) -> (result: bool)
    ensures
        result == clears(*action, *below),
{
    let sources = get_all_bottom_sources(action);
    let wanted = top_card(below);
    let mut i: usize = 0;
    while i < sources.len()
        invariant
            i <= sources@.len(),
            sources@ == spec_all_bottom_sources(*action),
            wanted == spec_top_card(*below),
            forall|j: int| 0 <= j < i ==> sources@[j] != PositionNoGoal::Field(wanted),
        decreases sources@.len() - i,
    {
        if let PositionNoGoal::Field(cell) = sources[i] {
            if wanted == cell {
                return true;
            }
        }
        i = i + 1;
    }
    false
}

fn is_successive_goal(action: &All, card: &NumberCard) -> (result: bool)
    ensures
        result == precedes_in_goal(*action, *card),
{
    if let All::Goal(other) = action {
        other.card.value < u8::MAX && other.card.value + 1 == card.value && other.card.suit
            == card.suit
    } else {
        false
    }
}

/// What `search_parent_tree` finds with a predicate that computes `accepts`.
proof fn lemma_search_is_nearest(
    actions: Seq<All>,
    current_action: int,
    accepts: spec_fn(All) -> bool,
    found: Option<int>,
)
    requires
        match found {
            Some(index) => {
                &&& 0 <= index < current_action
                &&& index < actions.len()
                &&& accepts(actions[index])
                &&& forall|j: int|
                    index < j < current_action && j < actions.len() ==> !accepts(
                        #[trigger] actions[j],
                    )
            },
            None => forall|j: int|
                0 <= j < current_action && j < actions.len() ==> !accepts(#[trigger] actions[j]),
        },
    ensures
        found == nearest_before(actions, current_action, accepts),
{
    lemma_nearest_before(actions, current_action, accepts);
}

fn move_parent(actions: &[All], current_action: usize, position: PositionNoGoal) -> (result:
    Option<usize>)
    ensures
        result matches Some(index) ==> index < current_action && index < actions@.len(),
        (match result {
            Some(index) => Some(index as int),
            None => None,
        }) == spec_move_parent(actions@, current_action as int, position),
{
    let is_move_parent = |other_action: &All| -> (r: bool)
        ensures
            r == writes_to(*other_action, position),
        { writes_position(other_action, &position) };
    let found = search_parent_tree(actions, current_action, is_move_parent);
    let result = match found {
        Some((index, _)) => Some(index),
        None => None,
    };
    proof {
        lemma_search_is_nearest(
            actions@,
            current_action as int,
            |a: All| writes_to(a, position),
            match result {
                Some(index) => Some(index as int),
                None => None,
            },
        );
    }
    result
}

/// For each source of the action that an earlier action wrote, the last action that did.
pub fn get_move_parents(actions: &[All], current_action: usize) -> (result: Vec<usize>)
    requires
        current_action < actions@.len(),
    ensures
        as_ints(result@) == spec_move_parents(
            actions@,
            current_action as int,
        ),
        forall|i: int| 0 <= i < result@.len() ==> #[trigger] result@[i] < current_action,
        result@.len() <= spec_all_sources(actions@[current_action as int]).len(),
        result@.len() <= 9,
{
    let sources = get_all_sources(actions[current_action]);
    let mut result: Vec<usize> = Vec::new();
    let ghost entry = |position: PositionNoGoal|
        spec_move_parent(actions@, current_action as int, position);
    let mut i: usize = 0;
    while i < sources.len()
        invariant
            i <= sources@.len(),
            current_action < actions@.len(),
            sources@ == spec_all_sources(actions@[current_action as int]),
            entry == |position: PositionNoGoal|
                spec_move_parent(actions@, current_action as int, position),
            as_ints(result@) == present_values(
                sources@.subrange(0, i as int).map_values(entry),
            ),
            forall|k: int| 0 <= k < result@.len() ==> #[trigger] result@[k] < current_action,
            result@.len() <= i,
        decreases sources@.len() - i,
    {
        let found = move_parent(actions, current_action, sources[i]);
        proof {
            let before = sources@.subrange(0, i as int).map_values(entry);
            let after = sources@.subrange(0, i as int + 1).map_values(entry);
            assert(after.drop_last() =~= before);
            assert(after.last() == entry(sources@[i as int]));
        }
        if let Some(index) = found {
            result.push(index);
            assert(as_ints(result@) =~= present_values(
                sources@.subrange(0, i as int).map_values(entry),
            ).push(index as int));
        }
        i = i + 1;
    }
    assert(sources@.subrange(0, sources@.len() as int) =~= sources@);
    result
}

/// The last earlier action that took a card from the cell which the action fills.
pub fn get_unblocking_parent(actions: &[All], current_action: usize) -> (result: Option<usize>)
    requires
        current_action < actions@.len(),
    ensures
        result matches Some(index) ==> index < current_action,
        (match result {
            Some(index) => Some(index as int),
            None => None,
        }) == spec_unblocking_parent(actions@, current_action as int),
{
    let destination = match get_destination(&actions[current_action]) {
        Some(destination) => destination,
        None => {
            return None;
        },
    };
    let is_unblocking = |other_action: &All| -> (r: bool)
        ensures
            r == takes_from(*other_action, destination),
        { takes_position(other_action, &destination) };
    let found = search_parent_tree(actions, current_action, is_unblocking);
    proof {
        lemma_search_is_nearest(
            actions@,
            current_action as int,
            |a: All| takes_from(a, destination),
            match found {
                Some((index, _)) => Some(index as int),
                None => None,
            },
        );
    }
    match found {
        Some((index, found_action)) => {
            if let All::Move(m) = found_action {
                if Position::Field(m.source()) == destination {
                    Some(index)
                } else {
                    None
                }
            } else {
                Some(index)
            }
        },
        None => None,
    }
}

/// The last earlier action that put down the card on which the action puts its own.
pub fn get_socket_parent(actions: &[All], current_action: usize) -> (result: Option<usize>)
    requires
        current_action < actions@.len(),
    ensures
        result matches Some(index) ==> index < current_action,
        (match result {
            Some(index) => Some(index as int),
            None => None,
        }) == spec_socket_parent(actions@, current_action as int),
{
    if let Some(Position::Field(above)) = get_destination(&actions[current_action]) {
        let is_socket_for = |action: &All| -> (r: bool)
            ensures
                r == sockets(*action, above),
            { is_socket(action, &above) };
        let found = search_parent_tree(actions, current_action, is_socket_for);
        let added_socket = match found {
            Some((index, _)) => Some(index),
            None => None,
        };
        proof {
            lemma_search_is_nearest(
                actions@,
                current_action as int,
                |a: All| sockets(a, above),
                match added_socket {
                    Some(index) => Some(index as int),
                    None => None,
                },
            );
        }
        let unblocking_parent = get_unblocking_parent(actions, current_action);
        let socket_is_older = match (added_socket, unblocking_parent) {
            (None, Some(_)) => true,
            (Some(a), Some(b)) => a < b,
            _ => false,
        };
        if socket_is_older {
            None
        } else {
            added_socket
        }
    } else {
        None
    }
}

/// The later of socket parent and unblocking parent, with the kind of the relation.
pub fn get_destination_parent(actions: &[All], current_action: usize) -> (result: Option<
    (usize, RelationType),
>)
    requires
        current_action < actions@.len(),
    ensures
        result matches Some((index, _)) ==> index < current_action,
        (match result {
            Some((index, relation)) => Some((index as int, relation)),
            None => None,
        }) == spec_destination_parent(actions@, current_action as int),
        result matches Some((_, relation)) ==> relation == RelationType::Socket || relation
            == RelationType::Unblock,
{
    let socket_parent = get_socket_parent(actions, current_action);
    let unblock_parent = get_unblocking_parent(actions, current_action);
    match (socket_parent, unblock_parent) {
        (None, None) => None,
        (Some(socket), None) => Some((socket, RelationType::Socket)),
        (None, Some(unblock)) => Some((unblock, RelationType::Unblock)),
        (Some(socket), Some(unblock)) => {
            if socket > unblock {
                Some((socket, RelationType::Socket))
            } else {
                Some((unblock, RelationType::Unblock))
            }
        },
    }
}

fn latest_move(actions: &[All], current_action: usize, cell: FieldPosition) -> (result: usize)
    requires
        current_action < actions@.len(),
    ensures
        result == spec_latest_move(actions@, current_action as int, cell),
{
    let latest_moves = get_move_parents(actions, current_action);
    let ghost parents = spec_move_parents(actions@, current_action as int);
    if let All::DragonKill(_) = actions[current_action] {
        let mut i: usize = 0;
        assert(parents.subrange(0, parents.len() as int) =~= parents);
        while i < latest_moves.len()
            invariant
                i <= latest_moves@.len(),
                current_action < actions@.len(),
                actions@[current_action as int] is DragonKill,
                parents == spec_move_parents(actions@, current_action as int),
                as_ints(latest_moves@) == parents,
                forall|k: int|
                    0 <= k < latest_moves@.len() ==> #[trigger] latest_moves@[k] < current_action,
                first_supplier(actions@, parents, cell) == first_supplier(
                    actions@,
                    parents.subrange(i as int, parents.len() as int),
                    cell,
                ),
            decreases latest_moves@.len() - i,
        {
            let index = latest_moves[i];
            let ghost rest = parents.subrange(i as int, parents.len() as int);
            assert(rest[0] == index as int);
            assert(rest.drop_first() =~= parents.subrange(i as int + 1, parents.len() as int));
            let supplied = get_destination(&actions[index]);
            assert(supplied == spec_destination(actions@[rest[0]]));
            if let Some(Position::Field(supplied)) = supplied {
                if supplied == cell {
                    assert(first_supplier(actions@, rest, cell) == index as int);
                    return index;
                }
            }
            assert(first_supplier(actions@, rest, cell) == first_supplier(
                actions@,
                rest.drop_first(),
                cell,
            ));
            i = i + 1;
        }
        assert(parents.subrange(parents.len() as int, parents.len() as int) =~= Seq::<
            int,
        >::empty());
        0
    } else {
        let mut largest: usize = 0;
        let mut i: usize = 0;
        while i < latest_moves.len()
            invariant
                i <= latest_moves@.len(),
                as_ints(latest_moves@) == parents,
                largest == largest_or_zero(parents.subrange(0, i as int)),
            decreases latest_moves@.len() - i,
        {
            assert(parents.subrange(0, i as int + 1).drop_last() =~= parents.subrange(
                0,
                i as int,
            ));
            assert(parents.subrange(0, i as int + 1).last() == latest_moves@[i as int] as int);
            if latest_moves[i] > largest {
                largest = latest_moves[i];
            }
            i = i + 1;
        }
        assert(parents.subrange(0, parents.len() as int) =~= parents);
        largest
    }
}

fn clear_parent(actions: &[All], current_action: usize, position: PositionNoGoal) -> (result:
    Option<usize>)
    requires
        current_action < actions@.len(),
    ensures
        result matches Some(index) ==> index < current_action,
        (match result {
            Some(index) => Some(index as int),
            None => None,
        }) == spec_clear_parent(actions@, current_action as int, position),
{
    let cell = match position {
        PositionNoGoal::Field(cell) => cell,
        PositionNoGoal::Bunker { .. } => {
            return None;
        },
    };
    let earliest = latest_move(actions, current_action, cell);
    let is_clearing_for = |other_action: &All| -> (r: bool)
        ensures
            r == clears(*other_action, cell),
        { is_clearing(other_action, &cell) };
    let found = search_parent_tree(actions, current_action, is_clearing_for);
    proof {
        lemma_search_is_nearest(
            actions@,
            current_action as int,
            |a: All| clears(a, cell),
            match found {
                Some((index, _)) => Some(index as int),
                None => None,
            },
        );
    }
    match found {
        Some((index, _)) => if index >= earliest {
            Some(index)
        } else {
            None
        },
        None => None,
    }
}

/// Actions which moved cards on top of other cards away.
pub fn get_clear_parents(actions: &[All], current_action: usize) -> (result: Vec<usize>)
    requires
        current_action < actions@.len(),
    ensures
        as_ints(result@) == spec_clear_parents(
            actions@,
            current_action as int,
        ),
        forall|i: int| 0 <= i < result@.len() ==> #[trigger] result@[i] < current_action,
        result@.len() <= spec_all_top_sources(actions@[current_action as int]).len(),
        result@.len() <= 4,
{
    let source_positions = get_all_top_sources(&actions[current_action]);
    let mut result: Vec<usize> = Vec::new();
    let ghost entry = |position: PositionNoGoal|
        spec_clear_parent(actions@, current_action as int, position);
    let mut i: usize = 0;
    while i < source_positions.len()
        invariant
            i <= source_positions@.len(),
            current_action < actions@.len(),
            source_positions@ == spec_all_top_sources(actions@[current_action as int]),
            entry == |position: PositionNoGoal|
                spec_clear_parent(actions@, current_action as int, position),
            as_ints(result@) == present_values(
                source_positions@.subrange(0, i as int).map_values(entry),
            ),
            forall|k: int| 0 <= k < result@.len() ==> #[trigger] result@[k] < current_action,
            result@.len() <= i,
        decreases source_positions@.len() - i,
    {
        let found = clear_parent(actions, current_action, source_positions[i]);
        proof {
            let before = source_positions@.subrange(0, i as int).map_values(entry);
            let after = source_positions@.subrange(0, i as int + 1).map_values(entry);
            assert(after.drop_last() =~= before);
            assert(after.last() == entry(source_positions@[i as int]));
        }
        if let Some(index) = found {
            result.push(index);
            assert(as_ints(result@) =~= present_values(
                source_positions@.subrange(0, i as int).map_values(entry),
            ).push(index as int));
        }
        i = i + 1;
    }
    assert(source_positions@.subrange(0, source_positions@.len() as int) =~= source_positions@);
    result
}

/// The last earlier goal action of the same suit and the rank below.
pub fn get_goal_parent(actions: &[All], current_action: usize) -> (result: Option<usize>)
    requires
        current_action < actions@.len(),
    ensures
        result matches Some(index) ==> index < current_action,
        (match result {
            Some(index) => Some(index as int),
            None => None,
        }) == spec_goal_parent(actions@, current_action as int),
{
    if let All::Goal(goal) = &actions[current_action] {
        let card = goal.card;
        if card.value > 1 {
            let is_successive = |other_action: &All| -> (r: bool)
                ensures
                    r == precedes_in_goal(*other_action, card),
                { is_successive_goal(other_action, &card) };
            let found = search_parent_tree(actions, current_action, is_successive);
            let result = match found {
                Some((index, _)) => Some(index),
                None => None,
            };
            proof {
                lemma_search_is_nearest(
                    actions@,
                    current_action as int,
                    |a: All| precedes_in_goal(a, card),
                    match result {
                        Some(index) => Some(index as int),
                        None => None,
                    },
                );
            }
            return result;
        }
    }
    None
}

/// Every parent of an action comes before it.
pub proof fn lemma_parents_before(actions: Seq<All>, current_action: int)
    requires
        0 <= current_action < actions.len(),
    ensures
        forall|k: int|
            0 <= k < spec_move_parents(actions, current_action).len() ==> 0
                <= #[trigger] spec_move_parents(actions, current_action)[k] < current_action,
        forall|k: int|
            0 <= k < spec_clear_parents(actions, current_action).len() ==> 0
                <= #[trigger] spec_clear_parents(actions, current_action)[k] < current_action,
        spec_goal_parent(actions, current_action) matches Some(parent) ==> 0 <= parent
            < current_action,
        spec_destination_parent(actions, current_action) matches Some((parent, _)) ==> 0 <= parent
            < current_action,
        spec_unblocking_parent(actions, current_action) matches Some(parent) ==> 0 <= parent
            < current_action,
        spec_socket_parent(actions, current_action) matches Some(parent) ==> 0 <= parent
            < current_action,
{
    let sources = spec_all_sources(actions[current_action]);
    let move_entries = sources.map_values(
        |position: PositionNoGoal| spec_move_parent(actions, current_action, position),
    );
    assert forall|i: int| 0 <= i < move_entries.len() implies (#[trigger] move_entries[i] matches Some(
        v,
    ) ==> 0 <= v < current_action) by {
        lemma_nearest_before(
            actions,
            current_action,
            |a: All| writes_to(a, sources[i]),
        );
    }
    lemma_present_values_bound(move_entries, current_action);
    let tops = spec_all_top_sources(actions[current_action]);
    let clear_entries = tops.map_values(
        |position: PositionNoGoal| spec_clear_parent(actions, current_action, position),
    );
    assert forall|i: int| 0 <= i < clear_entries.len() implies (#[trigger] clear_entries[i] matches Some(
        v,
    ) ==> 0 <= v < current_action) by {
        if let PositionNoGoal::Field(cell) = tops[i] {
            lemma_nearest_before(actions, current_action, |a: All| clears(a, cell));
        }
    }
    lemma_present_values_bound(clear_entries, current_action);
    if let All::Goal(goal) = actions[current_action] {
        lemma_nearest_before(
            actions,
            current_action,
            |a: All| precedes_in_goal(a, goal.card),
        );
    }
    if let Some(destination) = spec_destination(actions[current_action]) {
        lemma_nearest_before(actions, current_action, |a: All| takes_from(a, destination));
        if let Position::Field(above) = destination {
            lemma_nearest_before(actions, current_action, |a: All| sockets(a, above));
        }
    }
}

} // verus!

use vstd::prelude::*;
use crate::actions::base::All;
use crate::board::cards::CardType;
use crate::board::fieldposition::FieldPosition;
use crate::board::positions::{Position, PositionNoGoal};
use crate::text::{append, decimal, index_text};

verus! {

/// The numbers of a sequence of machine integers.
pub open spec fn as_ints(values: Seq<usize>) -> Seq<int> {
    values.map_values(|n: usize| n as int)
}

/// The name of the node of the action at `index`: `action_` and the
/// index in at least four digits.
pub open spec fn spec_node_name(index: usize) -> Seq<char> {
    "action_"@ + (if index < 10 {
        "000"@
    } else if index < 100 {
        "00"@
    } else if index < 1000 {
        "0"@
    } else {
        ""@
    }) + decimal(index as nat)
}

/// The cell above `position`.
pub open spec fn spec_top_card(position: FieldPosition) -> FieldPosition {
    FieldPosition::at(position.spec_column(), position.spec_row() + 1)
}

/// The `count` cells from `position` upwards, lowest first.
pub open spec fn spec_column_range(position: FieldPosition, count: nat) -> Seq<FieldPosition> {
    Seq::new(count, |i: int| FieldPosition::at(position.spec_column(), position.spec_row() + i))
}

/// Every place that an action takes a card from, lowest first.
pub open spec fn spec_all_sources(action: All) -> Seq<PositionNoGoal> {
    match action {
        All::Bunkerize(a) => if a.to_bunker {
            seq![PositionNoGoal::Field(a.field_position)]
        } else {
            seq![PositionNoGoal::Bunker { slot_index: a.bunker_slot_index }]
        },
        All::DragonKill(a) => a.source@,
        All::Goal(a) => seq![a.source],
        All::HuaKill(a) => seq![PositionNoGoal::Field(a.field_position)],
        All::Move(m) => spec_column_range(m.spec_source(), m.spec_stack_len() as nat).map_values(
            |p: FieldPosition| PositionNoGoal::Field(p),
        ),
    }
}

/// The places that an action takes its topmost cards from: for a move the
/// cell of its top card, else every source.
pub open spec fn spec_all_top_sources(action: All) -> Seq<PositionNoGoal> {
    match action {
        All::Move(m) => seq![
            PositionNoGoal::Field(
                FieldPosition::at(
                    m.spec_source().spec_column(),
                    m.spec_source().spec_row() + m.spec_stack_len() - 1,
                ),
            ),
        ],
        _ => spec_all_sources(action),
    }
}

/// The places that an action takes its lowest cards from: for a move the cell
/// of its bottom card, else every source.
pub open spec fn spec_all_bottom_sources(action: All) -> Seq<PositionNoGoal> {
    match action {
        All::Move(m) => seq![PositionNoGoal::Field(m.spec_source())],
        _ => spec_all_sources(action),
    }
}

/// The cards that an action touches.
pub open spec fn spec_all_cards(action: All) -> Seq<CardType> {
    match action {
        All::Bunkerize(a) => seq![a.card.with_hua()],
        All::DragonKill(a) => seq![
            CardType::Special(a.card),
            CardType::Special(a.card),
            CardType::Special(a.card),
            CardType::Special(a.card),
        ],
        All::Goal(a) => seq![CardType::Number(a.card)],
        All::HuaKill(_) => seq![CardType::Hua],
        All::Move(m) => m.spec_cards(),
    }
}

/// The place that an action puts its lowest card on, if it puts one anywhere.
pub open spec fn spec_destination(action: All) -> Option<Position> {
    match action {
        All::Bunkerize(a) => if a.to_bunker {
            Some(Position::Bunker { slot_index: a.bunker_slot_index })
        } else {
            Some(Position::Field(a.field_position))
        },
        All::DragonKill(a) => Some(Position::Bunker { slot_index: a.destination_slot_index }),
        All::Goal(a) => Some(Position::Goal { slot_index: a.goal_slot_index }),
        All::HuaKill(_) => None,
        All::Move(m) => Some(Position::Field(m.spec_destination())),
    }
}

/// The place that an action puts its topmost card on.
pub open spec fn spec_top_destination(action: All) -> Option<Position> {
    match action {
        All::Move(m) => Some(
            Position::Field(
                FieldPosition::at(
                    m.spec_destination().spec_column(),
                    m.spec_destination().spec_row() + m.spec_stack_len() - 1,
                ),
            ),
        ),
        _ => spec_destination(action),
    }
}

/// Every place that an action puts a card on, lowest first.
pub open spec fn spec_all_destinations(action: All) -> Seq<Position> {
    match action {
        All::Move(m) => spec_column_range(
            m.spec_destination(),
            m.spec_stack_len() as nat,
        ).map_values(|p: FieldPosition| Position::Field(p)),
        _ => match spec_destination(action) {
            Some(p) => seq![p],
            None => Seq::empty(),
        },
    }
}

/// The index of the last action before `current_action` that `accepts` holds
/// of, if there is one.
pub open spec fn nearest_before(
    actions: Seq<All>,
    current_action: int,
    accepts: spec_fn(All) -> bool,
) -> Option<int>
    decreases current_action,
{
    if current_action <= 0 {
        None
    } else if current_action - 1 < actions.len() && accepts(actions[current_action - 1]) {
        Some(current_action - 1)
    } else {
        nearest_before(actions, current_action - 1, accepts)
    }
}

/// `nearest_before` is the one index that is accepted and has no accepted
/// index between itself and `current_action`.
pub proof fn lemma_nearest_before(
    actions: Seq<All>,
    current_action: int,
    accepts: spec_fn(All) -> bool,
)
    ensures
        match nearest_before(actions, current_action, accepts) {
            Some(index) => {
                &&& 0 <= index < current_action
                &&& index < actions.len()
                &&& accepts(actions[index])
                &&& forall|j: int|
                    index < j < current_action && j < actions.len() ==> !accepts(
                        #[trigger] actions[j],
                    )
            },
            None => forall|j: int|
                0 <= j < current_action && j < actions.len() ==> !accepts(#[trigger] actions[j]),
        },
    decreases current_action,
{
    if current_action > 0 {
        lemma_nearest_before(actions, current_action - 1, accepts);
    }
}

/// The name of the node of the action at `index`.
pub fn node_name(index: usize) -> (result: String)
    ensures
        result@ == spec_node_name(index),
{
    let mut result = "action_".to_owned();
    if index < 10 {
        append(&mut result, "000");
    } else if index < 100 {
        append(&mut result, "00");
    } else if index < 1000 {
        append(&mut result, "0");
    } else {
        proof {
            reveal_strlit("");
        }
        assert(result@ + ""@ =~= result@);
    }
    append(&mut result, index_text(index).as_str());
    result
}

/// Position on top of this position (increments the row by one).
pub fn top_card(position: &FieldPosition) -> (result: FieldPosition)
    ensures
        result == spec_top_card(*position),
{
    FieldPosition::new(position.column(), position.row() + 1)
}

/// The `count` cells from `position` upwards, lowest first.
pub fn column_range(position: &FieldPosition, count: usize) -> (result: Vec<FieldPosition>)
    requires
        position.spec_row() + count <= 256,
    ensures
        result@ == spec_column_range(*position, count as nat),
{
    let mut result: Vec<FieldPosition> = Vec::new();
    let mut i: usize = 0;
    while i < count
        invariant
            i <= count,
            position.spec_row() + count <= 256,
            result@ == spec_column_range(*position, i as nat),
        decreases count - i,
    {
        result.push(FieldPosition::new(position.column(), position.row() + (i as u8)));
        i = i + 1;
    }
    result
}

/// Every place that an action takes a card from, lowest first.
pub fn get_all_sources(action: All) -> (result: Vec<PositionNoGoal>)
    ensures
        action.valid(),
        result@ == spec_all_sources(action),
        1 <= result@.len() <= 9,
{
    match action {
        All::Bunkerize(a) => {
            if a.to_bunker {
                vec![PositionNoGoal::Field(a.field_position)]
            } else {
                vec![PositionNoGoal::Bunker { slot_index: a.bunker_slot_index }]
            }
        },
        All::DragonKill(a) => {
            let result = vec![a.source[0], a.source[1], a.source[2], a.source[3]];
            assert(result@ =~= a.source@);
            result
        },
        All::Goal(a) => vec![a.source],
        All::HuaKill(a) => vec![PositionNoGoal::Field(a.field_position)],
        All::Move(move_action) => {
            let stack_len = move_action.stack_len();
            proof {
                move_action.spec_source().lemma_parts();
            }
            let cells = column_range(&move_action.source(), stack_len as usize);
            let mut result: Vec<PositionNoGoal> = Vec::new();
            let mut i: usize = 0;
            while i < cells.len()
                invariant
                    i <= cells@.len(),
                    result@ == cells@.subrange(0, i as int).map_values(
                        |p: FieldPosition| PositionNoGoal::Field(p),
                    ),
                decreases cells@.len() - i,
            {
                result.push(PositionNoGoal::Field(cells[i]));
                i = i + 1;
                assert(result@ =~= cells@.subrange(0, i as int).map_values(
                    |p: FieldPosition| PositionNoGoal::Field(p),
                ));
            }
            assert(cells@.subrange(0, cells@.len() as int) =~= cells@);
            result
        },
    }
}

/// The places that an action takes its topmost cards from.
pub fn get_all_top_sources(action: &All) -> (result: Vec<PositionNoGoal>)
    ensures
        action.valid(),
        result@ == spec_all_top_sources(*action),
        1 <= result@.len() <= 4,
{
    if let All::Move(move_action) = action {
        let source = move_action.source();
        vec![
            PositionNoGoal::Field(
                FieldPosition::new(source.column(), source.row() + move_action.stack_len() - 1),
            ),
        ]
    } else {
        get_all_sources(*action)
    }
}

/// The places that an action takes its lowest cards from.
pub fn get_all_bottom_sources(action: &All) -> (result: Vec<PositionNoGoal>)
    ensures
        result@ == spec_all_bottom_sources(*action),
        result@.len() >= 1,
{
    if let All::Move(move_action) = action {
        vec![PositionNoGoal::Field(move_action.source())]
    } else {
        get_all_sources(*action)
    }
}

/// The cards that an action touches.
pub fn get_all_cards(action: &All) -> (result: Vec<CardType>)
    ensures
        result@ == spec_all_cards(*action),
        result@.len() >= 1,
{
    match action {
        All::Bunkerize(a) => vec![a.card.add_hua()],
        All::DragonKill(a) => vec![
            CardType::Special(a.card),
            CardType::Special(a.card),
            CardType::Special(a.card),
            CardType::Special(a.card),
        ],
        All::Goal(a) => vec![CardType::Number(a.card)],
        All::HuaKill(_) => vec![CardType::Hua],
        All::Move(move_action) => move_action.cards(),
    }
}

/// The place that an action puts its lowest card on, if it puts one anywhere.
pub fn get_destination(action: &All) -> (result: Option<Position>)
    ensures
        result == spec_destination(*action),
{
    match action {
        All::Bunkerize(a) => {
            if a.to_bunker {
                Some(Position::Bunker { slot_index: a.bunker_slot_index })
            } else {
                Some(Position::Field(a.field_position))
            }
        },
        All::DragonKill(a) => Some(Position::Bunker { slot_index: a.destination_slot_index }),
        All::Goal(a) => Some(Position::Goal { slot_index: a.goal_slot_index }),
        All::HuaKill(_) => None,
        All::Move(move_action) => Some(Position::Field(move_action.destination())),
    }
}

/// Returns the destination of a move, or the topmost card in its destination when moving
/// multiple cards.
pub fn get_top_destination(action: All) -> (result: Option<Position>)
    ensures
        result == spec_top_destination(action),
{
    if let All::Move(move_action) = action {
        let destination = move_action.destination();
        Some(
            Position::Field(
                FieldPosition::new(
                    destination.column(),
                    destination.row() + move_action.stack_len() - 1,
                ),
            ),
        )
    } else {
        get_destination(&action)
    }
}

/// Every place that an action puts a card on, lowest first.
pub fn get_all_destinations(action: All) -> (result: Vec<Position>)
    ensures
        result@ == spec_all_destinations(action),
{
    if let All::Move(move_action) = action {
        let stack_len = move_action.stack_len();
        proof {
            move_action.spec_destination().lemma_parts();
        }
        let cells = column_range(&move_action.destination(), stack_len as usize);
        let mut result: Vec<Position> = Vec::new();
        let mut i: usize = 0;
        while i < cells.len()
            invariant
                i <= cells@.len(),
                result@ == cells@.subrange(0, i as int).map_values(
                    |p: FieldPosition| Position::Field(p),
                ),
            decreases cells@.len() - i,
        {
            result.push(Position::Field(cells[i]));
            i = i + 1;
            assert(result@ =~= cells@.subrange(0, i as int).map_values(
                |p: FieldPosition| Position::Field(p),
            ));
        }
        assert(cells@.subrange(0, cells@.len() as int) =~= cells@);
        result
    } else {
        match get_destination(&action) {
            Some(p) => vec![p],
            None => Vec::new(),
        }
    }
}

/// The last action before `current_action` that `predicate` accepts, with its index.
pub fn search_parent_tree<F>(actions: &[All], current_action: usize, predicate: F) -> (result:
    Option<(usize, &All)>) where F: Fn(&All) -> bool
    requires
        forall|i: int|
            0 <= i < actions@.len() && i < current_action ==> predicate.requires(
                (&#[trigger] actions@[i],),
            ),
    ensures
        match result {
            Some((index, action)) => {
                &&& index < current_action
                &&& index < actions@.len()
                &&& *action == actions@[index as int]
                &&& predicate.ensures((&actions@[index as int],), true)
                &&& forall|j: int|
                    index < j < current_action && j < actions@.len() ==> predicate.ensures(
                        (&#[trigger] actions@[j],),
                        false,
                    )
            },
            None => forall|j: int|
                0 <= j < current_action && j < actions@.len() ==> predicate.ensures(
                    (&#[trigger] actions@[j],),
                    false,
                ),
        },
{
    let mut index: usize = if current_action < actions.len() {
        current_action
    } else {
        actions.len()
    };
    while index > 0
        invariant
            index <= current_action,
            index <= actions@.len(),
            forall|i: int|
                0 <= i < actions@.len() && i < current_action ==> predicate.requires(
                    (&#[trigger] actions@[i],),
                ),
            forall|j: int|
                index <= j < current_action && j < actions@.len() ==> predicate.ensures(
                    (&#[trigger] actions@[j],),
                    false,
                ),
        decreases index,
    {
        index = index - 1;
        let action = &actions[index];
        if predicate(action) {
            return Some((index, action));
        }
    }
    None
}

} // verus!

use vstd::prelude::*;
use crate::board::board_class::{Board, BoardView};
use crate::board::cards::{CardType, SpecialCardType};
use crate::board::positions::BunkerSlot;
use crate::board::squasher::{squash_at, squashed};

verus! {

/// The mark of a board that boards share which differ only in the order
/// of their columns and of their bunker slots.
#[derive(Debug, Clone, PartialEq, Eq, Hash)]
pub struct BoardEqHash([u8; 32]);

impl BoardEqHash {
    /// The 32 bytes of the mark.
    pub closed spec fn bytes(self) -> Seq<u8> {
        self.0@
    }

    /// The 32 bytes of the mark.
    pub fn to_bytes(&self) -> (result: [u8; 32])
        ensures
            result@ == self.bytes(),
    {
        self.0
    }
}

/// The place of a card in the order of all cards: the flower, then the
/// number cards by rank and suit, then the dragons.
pub open spec fn card_rank(card: CardType) -> int {
    match card {
        CardType::Hua => 0,
        CardType::Number(c) => 1 + 3 * c.value + c.suit.ordinal(),
        CardType::Special(k) => 769 + k.ordinal(),
    }
}

/// The place of what a bunker slot holds in the order of all contents: an
/// empty slot, then blocked slots, then slots with a card.
pub open spec fn slot_rank(slot: BunkerSlot) -> int {
    match slot {
        BunkerSlot::Empty => 0,
        BunkerSlot::Blocked(None) => 1,
        BunkerSlot::Blocked(Some(k)) => 2 + k.ordinal(),
        BunkerSlot::Stash(card) => 4 + card_rank(card.with_hua()),
    }
}

/// Whether column `a` comes before column `b`: at the first place where
/// they differ `a` has the lower card, or `a` ends there and `b` goes on.
pub open spec fn column_before(a: Seq<CardType>, b: Seq<CardType>) -> bool
    decreases a.len(),
{
    if b.len() == 0 {
        false
    } else if a.len() == 0 {
        true
    } else if card_rank(a[0]) != card_rank(b[0]) {
        card_rank(a[0]) < card_rank(b[0])
    } else {
        column_before(a.drop_first(), b.drop_first())
    }
}

/// Of two columns one at most comes before the other.
pub proof fn lemma_column_before_one_way(a: Seq<CardType>, b: Seq<CardType>)
    ensures
        !(column_before(a, b) && column_before(b, a)),
    decreases a.len(),
{
    if a.len() > 0 && b.len() > 0 && card_rank(a[0]) == card_rank(b[0]) {
        lemma_column_before_one_way(a.drop_first(), b.drop_first());
    }
}

/// The numbers of a sequence of machine integers.
pub open spec fn indices(values: Seq<usize>) -> Seq<int> {
    values.map_values(|c: usize| c as int)
}

/// Whether `order` holds each of the numbers below `count` once.
pub open spec fn is_order(order: Seq<int>, count: int) -> bool {
    &&& order.len() == count
    &&& forall|i: int| 0 <= i < count ==> 0 <= #[trigger] order[i] < count
    &&& forall|i: int, j: int| 0 <= i < j < count ==> order[i] != order[j]
}

/// Whether the column that `order` names at the place `k + 1` does not
/// come before the one at the place `k`.
pub open spec fn in_place(field: Seq<Seq<CardType>>, order: Seq<int>, k: int) -> bool {
    !column_before(field[order[k + 1]], field[order[k]])
}

/// Whether no column comes before the one that `order` names in front of it.
pub open spec fn columns_sorted(field: Seq<Seq<CardType>>, order: Seq<int>, count: int) -> bool {
    forall|k: int|
        0 <= k < count - 1 ==> !column_before(field[#[trigger] order[k + 1]], field[order[k]])
}

/// Whether no slot holds less than the one that `order` names in front of it.
pub open spec fn slots_sorted(bunker: Seq<BunkerSlot>, order: Seq<int>, count: int) -> bool {
    forall|k: int|
        0 <= k < count - 1 ==> slot_rank(bunker[order[k]]) <= slot_rank(
            bunker[#[trigger] order[k + 1]],
        )
}

/// Bytes, and how many bits are packed into them.
pub struct Packed {
    pub bytes: Seq<u8>,
    pub bits: nat,
}

/// `count` more bits packed.
pub open spec fn pack(packed: Packed, input: u8, count: u8) -> Packed {
    Packed {
        bytes: squashed(packed.bytes, packed.bits, input, count),
        bits: packed.bits + count as nat,
    }
}

/// The cards packed, five bits each.
pub open spec fn pack_cards(packed: Packed, cards: Seq<CardType>) -> Packed
    decreases cards.len(),
{
    if cards.len() == 0 {
        packed
    } else {
        pack(pack_cards(packed, cards.drop_last()), cards.last().byte_value() as u8, 5)
    }
}

/// A column packed: its length in four bits, then its cards.
pub open spec fn pack_column(packed: Packed, column: Seq<CardType>) -> Packed {
    pack_cards(pack(packed, column.len() as u8, 4), column)
}

/// The first `count` columns in the order `order` packed.
pub open spec fn pack_columns(
    packed: Packed,
    field: Seq<Seq<CardType>>,
    order: Seq<int>,
    count: nat,
) -> Packed
    decreases count,
{
    if count == 0 {
        packed
    } else {
        pack_column(
            pack_columns(packed, field, order, (count - 1) as nat),
            field[order[count - 1]],
        )
    }
}

/// The six bits that stand for what a bunker slot holds.
pub open spec fn slot_byte(slot: BunkerSlot) -> u8 {
    match slot {
        BunkerSlot::Empty => 0,
        BunkerSlot::Stash(card) => card.with_hua().byte_value() as u8,
        BunkerSlot::Blocked(Some(card)) => (CardType::Special(card).byte_value() as u8) | 32u8,
        BunkerSlot::Blocked(None) => 32,
    }
}

/// The first `count` bunker slots in the order `order` packed, six bits each.
pub open spec fn pack_slots(packed: Packed, bunker: Seq<BunkerSlot>, order: Seq<int>, count: nat)
    -> Packed
    decreases count,
{
    if count == 0 {
        packed
    } else {
        pack(
            pack_slots(packed, bunker, order, (count - 1) as nat),
            slot_byte(bunker[order[count - 1]]),
            6,
        )
    }
}

/// The bytes of a board whose columns and bunker slots are taken in the
/// orders `columns` and `slots`.
pub open spec fn spec_hash_bytes(board: BoardView, columns: Seq<int>, slots: Seq<int>) -> Seq<u8> {
    pack_slots(
        pack_columns(Packed { bytes: Seq::new(32, |i: int| 0u8), bits: 0 }, board.field, columns, 8),
        board.bunker,
        slots,
        3,
    ).bytes
}

/// The number of cards of the first `count` columns.
pub open spec fn cards_upto(field: Seq<Seq<CardType>>, count: nat) -> nat
    decreases count,
{
    if count == 0 {
        0
    } else {
        cards_upto(field, (count - 1) as nat) + field[count - 1].len()
    }
}

/// Whether a board fits into 32 bytes: it holds 41 cards at most on its
/// field, each of them, and each card of the bunker, with a number below 256.
pub open spec fn spec_hashable(board: BoardView) -> bool {
    &&& cards_upto(board.field, 8) <= 41
    &&& forall|c: int, r: int|
        0 <= c < 8 && 0 <= r < board.field[c].len() ==> (#[trigger] board.field[c][r]).byte_value()
            <= 255
    &&& forall|s: int|
        0 <= s < 3 ==> (#[trigger] board.bunker[s] matches BunkerSlot::Stash(card)
            ==> card.with_hua().byte_value() <= 255)
}

fn card_rank_of(card: &CardType) -> (result: u16)
    ensures
        result == card_rank(*card),
{
    match card {
        CardType::Hua => 0,
        CardType::Number(c) => {
            let suit: u16 = match c.suit {
                crate::board::cards::NumberCardColor::Red => 0,
                crate::board::cards::NumberCardColor::Green => 1,
                crate::board::cards::NumberCardColor::Black => 2,
            };
            1 + 3 * (c.value as u16) + suit
        },
        CardType::Special(k) => {
            let kind: u16 = match k {
                SpecialCardType::Zhong => 0,
                SpecialCardType::Bai => 1,
                SpecialCardType::Fa => 2,
            };
            769 + kind
        },
    }
}

fn slot_rank_of(slot: &BunkerSlot) -> (result: u16)
    ensures
        result == slot_rank(*slot),
{
    match slot {
        BunkerSlot::Empty => 0,
        BunkerSlot::Blocked(None) => 1,
        BunkerSlot::Blocked(Some(k)) => {
            let kind: u16 = match k {
                SpecialCardType::Zhong => 0,
                SpecialCardType::Bai => 1,
                SpecialCardType::Fa => 2,
            };
            2 + kind
        },
        BunkerSlot::Stash(card) => 4 + card_rank_of(&card.add_hua()),
    }
}

/// Whether column `a` comes before column `b`.
pub fn is_column_before(a: &Vec<CardType>, b: &Vec<CardType>) -> (result: bool)
    ensures
        result == column_before(a@, b@),
{
    let mut i: usize = 0;
    assert(a@.subrange(0, a@.len() as int) =~= a@);
    assert(b@.subrange(0, b@.len() as int) =~= b@);
    while i < a.len() && i < b.len()
        invariant
            i <= a@.len(),
            i <= b@.len(),
            column_before(a@, b@) == column_before(
                a@.subrange(i as int, a@.len() as int),
                b@.subrange(i as int, b@.len() as int),
            ),
        decreases a@.len() - i,
    {
        let ghost rest_a = a@.subrange(i as int, a@.len() as int);
        let ghost rest_b = b@.subrange(i as int, b@.len() as int);
        proof {
            assert(rest_a[0] == a@[i as int]);
            assert(rest_b[0] == b@[i as int]);
            assert(rest_a.drop_first() =~= a@.subrange(i as int + 1, a@.len() as int));
            assert(rest_b.drop_first() =~= b@.subrange(i as int + 1, b@.len() as int));
        }
        let left = card_rank_of(&a[i]);
        let right = card_rank_of(&b[i]);
        if left != right {
            return left < right;
        }
        i = i + 1;
    }
    i < b.len()
}

impl Board {
    /// An order of the columns in which no column comes before the one in
    /// front of it.
    pub fn column_order(&self) -> (result: [usize; 8])
        ensures
            is_order(indices(result@), 8),
            columns_sorted(self@.field, indices(result@), 8),
    {
        let mut order: [usize; 8] = [0, 1, 2, 3, 4, 5, 6, 7];
        let mut i: usize = 1;
        while i < 8
            invariant
                1 <= i <= 8,
                is_order(indices(order@), 8),
                forall|k: int| 0 <= k < i - 1 ==> #[trigger] in_place(
                    self@.field,
                    indices(order@),
                    k,
                ),
            decreases 8 - i,
        {
            let mut j: usize = i;
            loop
                invariant_except_break
                    j <= i < 8,
                    is_order(indices(order@), 8),
                    forall|k: int|
                        0 <= k < i && k != j - 1 ==> #[trigger] in_place(
                            self@.field,
                            indices(order@),
                            k,
                        ),
                    0 < j < i ==> !column_before(
                        self@.field[indices(order@)[j as int + 1]],
                        self@.field[indices(order@)[j as int - 1]],
                    ),
                ensures
                    i < 8,
                    is_order(indices(order@), 8),
                    forall|k: int| 0 <= k < i ==> #[trigger] in_place(
                        self@.field,
                        indices(order@),
                        k,
                    ),
                decreases j,
            {
                if j == 0 {
                    break ;
                }
                let upper = order[j];
                let lower = order[j - 1];
                proof {
                    assert(indices(order@)[j as int] == upper as int);
                    assert(indices(order@)[j as int - 1] == lower as int);
                }
                if !is_column_before(&self.field[upper], &self.field[lower]) {
                    assert(in_place(self@.field, indices(order@), j as int - 1));
                    break ;
                }
                let ghost old_ints = indices(order@);
                proof {
                    lemma_column_before_one_way(
                        self@.field[upper as int],
                        self@.field[lower as int],
                    );
                }
                order[j] = lower;
                order[j - 1] = upper;
                proof {
                    let ints = indices(order@);
                    assert forall|a: int| 0 <= a < 8 implies #[trigger] ints[a] == old_ints[if a
                        == j {
                        j - 1
                    } else if a == j - 1 {
                        j as int
                    } else {
                        a
                    }] by {
                    }
                    assert forall|a: int, b: int| 0 <= a < b < 8 implies ints[a] != ints[b] by {
                        let from_a = if a == j {
                            j - 1
                        } else if a == j - 1 {
                            j as int
                        } else {
                            a
                        };
                        let from_b = if b == j {
                            j - 1
                        } else if b == j - 1 {
                            j as int
                        } else {
                            b
                        };
                        if from_a < from_b {
                            assert(old_ints[from_a] != old_ints[from_b]);
                        } else {
                            assert(old_ints[from_b] != old_ints[from_a]);
                        }
                    }
                    assert forall|k: int| 0 <= k < i && k != j - 2 implies #[trigger] in_place(
                        self@.field,
                        ints,
                        k,
                    ) by {
                        if k == j - 1 {
                        } else if k == j {
                        } else {
                            assert(in_place(self@.field, old_ints, k));
                        }
                    }
                    if j >= 2 {
                        assert(in_place(self@.field, old_ints, j - 2));
                    }
                }
                j = j - 1;
            }
            i = i + 1;
        }
        proof {
            let ints = indices(order@);
            assert forall|k: int| 0 <= k < 7 implies !column_before(
                self@.field[#[trigger] ints[k + 1]],
                self@.field[ints[k]],
            ) by {
                assert(in_place(self@.field, ints, k));
            }
        }
        order
    }

    /// An order of the bunker slots in which no slot holds less than the
    /// one in front of it.
    pub fn slot_order(&self) -> (result: [usize; 3])
        ensures
            is_order(indices(result@), 3),
            slots_sorted(self@.bunker, indices(result@), 3),
    {
        let r0 = slot_rank_of(&self.bunker[0]);
        let r1 = slot_rank_of(&self.bunker[1]);
        let r2 = slot_rank_of(&self.bunker[2]);
        let order: [usize; 3] = if r0 <= r1 {
            if r1 <= r2 {
                [0, 1, 2]
            } else if r0 <= r2 {
                [0, 2, 1]
            } else {
                [2, 0, 1]
            }
        } else {
            if r0 <= r2 {
                [1, 0, 2]
            } else if r1 <= r2 {
                [1, 2, 0]
            } else {
                [2, 1, 0]
            }
        };
        proof {
            let ints = indices(order@);
            assert forall|k: int| 0 <= k < 2 implies slot_rank(self@.bunker[ints[k]]) <= slot_rank(
                self@.bunker[#[trigger] ints[k + 1]],
            ) by {
                if k == 0 {
                } else {
                }
            }
        }
        order
    }

    /// Whether the board fits into the 32 bytes of its mark.
    pub fn can_hash(&self) -> (result: bool)
        ensures
            result == spec_hashable(self@),
    {
        let mut total: usize = 0;
        let mut column: usize = 0;
        while column < 8
            invariant
                column <= 8,
                total == cards_upto(self@.field, column as nat),
                total <= 41,
                forall|c: int, r: int|
                    0 <= c < column && 0 <= r < self@.field[c].len() ==> (
                    #[trigger] self@.field[c][r]).byte_value() <= 255,
            decreases 8 - column,
        {
            let cards = &self.field[column];
            if cards.len() > 41 - total {
                proof {
                    lemma_cards_upto_grows(self@.field, column as nat + 1, 8);
                }
                return false;
            }
            total = total + cards.len();
            let mut row: usize = 0;
            while row < cards.len()
                invariant
                    row <= cards@.len(),
                    column < 8,
                    cards@ == self@.field[column as int],
                    forall|r: int| 0 <= r < row ==> (#[trigger] cards@[r]).byte_value() <= 255,
                decreases cards@.len() - row,
            {
                if !fits_byte(&cards[row]) {
                    assert(self@.field[column as int][row as int].byte_value() > 255);
                    return false;
                }
                row = row + 1;
            }
            column = column + 1;
        }
        let mut slot: usize = 0;
        while slot < 3
            invariant
                slot <= 3,
                forall|s: int|
                    0 <= s < slot ==> (#[trigger] self@.bunker[s] matches BunkerSlot::Stash(card)
                        ==> card.with_hua().byte_value() <= 255),
            decreases 3 - slot,
        {
            if let BunkerSlot::Stash(card) = self.bunker[slot] {
                if !fits_byte(&card.add_hua()) {
                    assert(self@.bunker[slot as int] matches BunkerSlot::Stash(card)
                        && card.with_hua().byte_value() > 255);
                    return false;
                }
            }
            slot = slot + 1;
        }
        true
    }

    /// The mark of the board: its columns and its bunker slots are put in
    /// order, then the length and the cards of each column and what each
    /// bunker slot holds are packed into 32 bytes.
    #[must_use]
    pub fn equivalence_hash(&self) -> (result: BoardEqHash)
        requires
            spec_hashable(self@),
        ensures
            exists|columns: Seq<int>, slots: Seq<int>|
                {
                    &&& is_order(columns, 8)
                    &&& columns_sorted(self@.field, columns, 8)
                    &&& is_order(slots, 3)
                    &&& slots_sorted(self@.bunker, slots, 3)
                    &&& result.bytes() == #[trigger] spec_hash_bytes(self@, columns, slots)
                },
    {
        let mut result: Vec<u8> = vec![0u8; 32];
        let order = self.column_order();
        let slot_order = self.slot_order();
        let ghost columns = indices(order@);
        let ghost slots = indices(slot_order@);
        let ghost start = Packed { bytes: Seq::new(32, |i: int| 0u8), bits: 0 };
        assert(result@ =~= start.bytes);
        let mut byte: usize = 0;
        let mut bit: u8 = 0;
        let ghost mut seen: Seq<bool> = Seq::new(8, |i: int| false);
        let mut k: usize = 0;
        while k < 8
            invariant
                k <= 8,
                bit < 8,
                result@.len() == 32,
                spec_hashable(self@),
                is_order(columns, 8),
                columns == indices(order@),
                seen.len() == 8,
                forall|c: int| 0 <= c < 8 ==> (#[trigger] seen[c] <==> exists|m: int|
                    0 <= m < k && columns[m] == c),
                pack_columns(start, self@.field, columns, k as nat) == (Packed {
                    bytes: result@,
                    bits: (byte * 8 + bit) as nat,
                }),
                byte * 8 + bit == 4 * k + 5 * seen_cards(self@.field, seen),
            decreases 8 - k,
        {
            let column = order[k];
            assert(columns[k as int] == column as int);
            let cards = &self.field[column];
            proof {
                lemma_seen_cards(self@.field, seen, column as int);
                if seen[column as int] {
                    let m = choose|m: int| 0 <= m < k && columns[m] == column as int;
                    assert(columns[m] != columns[k as int]);
                }
            }
            let next = squash_at(
                result.as_mut_slice(),
                byte,
                bit,
                (cards.len() % 256) as u8,
                4,
            );
            byte = next.0;
            bit = next.1;
            let ghost headed = Packed { bytes: result@, bits: (byte * 8 + bit) as nat };
            let mut row: usize = 0;
            assert(cards@.subrange(0, 0) =~= Seq::<CardType>::empty());
            while row < cards.len()
                invariant
                    row <= cards@.len(),
                    bit < 8,
                    result@.len() == 32,
                    column < 8,
                    cards@ == self@.field[column as int],
                    spec_hashable(self@),
                    headed.bits + 5 * cards@.len() <= 238,
                    pack_cards(headed, cards@.subrange(0, row as int)) == (Packed {
                        bytes: result@,
                        bits: (byte * 8 + bit) as nat,
                    }),
                    byte * 8 + bit == headed.bits + 5 * row,
                decreases cards@.len() - row,
            {
                proof {
                    assert(cards@.subrange(0, row as int + 1).drop_last() =~= cards@.subrange(
                        0,
                        row as int,
                    ));
                    assert(cards@.subrange(0, row as int + 1).last() == cards@[row as int]);
                    assert(self@.field[column as int][row as int].byte_value() <= 255);
                }
                let cell_byte = cards[row].to_byte();
                let next = squash_at(result.as_mut_slice(), byte, bit, cell_byte, 5);
                byte = next.0;
                bit = next.1;
                row = row + 1;
            }
            proof {
                assert(cards@.subrange(0, cards@.len() as int) =~= cards@);
                let marked = seen.update(column as int, true);
                assert forall|c: int| 0 <= c < 8 implies (#[trigger] marked[c] <==> exists|m: int|
                    0 <= m < k + 1 && columns[m] == c) by {
                    if c == column {
                        assert(columns[k as int] == c);
                    } else if seen[c] {
                        let m = choose|m: int| 0 <= m < k && columns[m] == c;
                        assert(0 <= m < k + 1 && columns[m] == c);
                    } else {
                        if exists|m: int| 0 <= m < k + 1 && columns[m] == c {
                            let m = choose|m: int| 0 <= m < k + 1 && columns[m] == c;
                            assert(m < k);
                        }
                    }
                }
                seen = marked;
            }
            k = k + 1;
        }
        let ghost fielded = Packed { bytes: result@, bits: (byte * 8 + bit) as nat };
        proof {
            lemma_seen_cards_bound(self@.field, seen);
        }
        let mut s: usize = 0;
        while s < 3
            invariant
                s <= 3,
                bit < 8,
                result@.len() == 32,
                spec_hashable(self@),
                is_order(slots, 3),
                slots == indices(slot_order@),
                fielded.bits <= 237,
                pack_slots(fielded, self@.bunker, slots, s as nat) == (Packed {
                    bytes: result@,
                    bits: (byte * 8 + bit) as nat,
                }),
                byte * 8 + bit == fielded.bits + 6 * s,
            decreases 3 - s,
        {
            let index = slot_order[s];
            assert(slots[s as int] == index as int);
            assert(self@.bunker[index as int] matches BunkerSlot::Stash(card)
                ==> card.with_hua().byte_value() <= 255);
            let bunker_byte: u8 = match self.bunker[index] {
                BunkerSlot::Empty => 0,
                BunkerSlot::Stash(card) => card.add_hua().to_byte(),
                BunkerSlot::Blocked(Some(card)) => CardType::Special(card).to_byte() | 32u8,
                BunkerSlot::Blocked(None) => 32,
            };
            let next = squash_at(result.as_mut_slice(), byte, bit, bunker_byte, 6);
            byte = next.0;
            bit = next.1;
            s = s + 1;
        }
        let bytes: [u8; 32] = [
            result[0],
            result[1],
            result[2],
            result[3],
            result[4],
            result[5],
            result[6],
            result[7],
            result[8],
            result[9],
            result[10],
            result[11],
            result[12],
            result[13],
            result[14],
            result[15],
            result[16],
            result[17],
            result[18],
            result[19],
            result[20],
            result[21],
            result[22],
            result[23],
            result[24],
            result[25],
            result[26],
            result[27],
            result[28],
            result[29],
            result[30],
            result[31],
        ];
        assert(bytes@ =~= result@);
        let hash = BoardEqHash(bytes);
        assert(hash.bytes() == spec_hash_bytes(self@, columns, slots));
        hash
    }
}

/// The number of cards of the columns that `seen` marks.
pub open spec fn seen_cards(field: Seq<Seq<CardType>>, seen: Seq<bool>) -> nat {
    seen_len(field, seen, 0) + seen_len(field, seen, 1) + seen_len(field, seen, 2) + seen_len(
        field,
        seen,
        3,
    ) + seen_len(field, seen, 4) + seen_len(field, seen, 5) + seen_len(field, seen, 6) + seen_len(
        field,
        seen,
        7,
    )
}

/// The number of cards of a column, if `seen` marks it.
pub open spec fn seen_len(field: Seq<Seq<CardType>>, seen: Seq<bool>, column: int) -> nat {
    if seen[column] {
        field[column].len()
    } else {
        0
    }
}

proof fn lemma_seen_cards(field: Seq<Seq<CardType>>, seen: Seq<bool>, column: int)
    requires
        seen.len() == 8,
        0 <= column < 8,
    ensures
        !seen[column] ==> seen_cards(field, seen.update(column, true)) == seen_cards(field, seen)
            + field[column].len(),
        seen_cards(field, seen) <= cards_upto(field, 8),
        !seen[column] ==> seen_cards(field, seen) + field[column].len() <= cards_upto(field, 8),
{
    lemma_seen_cards_bound(field, seen);
    if !seen[column] {
        lemma_seen_cards_bound(field, seen.update(column, true));
    }
}

proof fn lemma_seen_cards_bound(field: Seq<Seq<CardType>>, seen: Seq<bool>)
    requires
        seen.len() == 8,
    ensures
        seen_cards(field, seen) <= cards_upto(field, 8),
{
    reveal_with_fuel(cards_upto, 9);
}

proof fn lemma_cards_upto_grows(field: Seq<Seq<CardType>>, count: nat, upto: nat)
    requires
        count <= upto,
    ensures
        cards_upto(field, count) <= cards_upto(field, upto),
    decreases upto - count,
{
    if count < upto {
        lemma_cards_upto_grows(field, count + 1, upto);
    }
}

fn fits_byte(card: &CardType) -> (result: bool)
    ensures
        result == (card.byte_value() <= 255),
{
    match card {
        CardType::Number(c) => {
            let suit: u16 = match c.suit {
                crate::board::cards::NumberCardColor::Red => 0,
                crate::board::cards::NumberCardColor::Green => 1,
                crate::board::cards::NumberCardColor::Black => 2,
            };
            c.value as u16 + 9 * suit <= 255
        },
        _ => true,
    }
}

} // verus!

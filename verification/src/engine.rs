//! The per-frame decisions of the mod: combat-art combos and prosthetic binds.
//!
//! Each frame the host reads the game (action bits, the combo window, the
//! prosthetic slots, the inventory's item ids) and hands them to
//! [`Mod::process_input`], which returns the action bits to write back, the
//! slot writes to perform in order, and whether to clear the combo window.
use vstd::prelude::*;

use crate::binds::bind_get;
use crate::config::{first_from_art, first_of, token_of, tool_code, Config, ConfigModel, ToolCombo, ToolFirst, ToolTail};
use crate::input::{art_code, ArtCombo, ArtToken};

verus! {

//----------------------------------------------------------------------------
//  Constants
//----------------------------------------------------------------------------

pub const BLOCK_INJECTION_DURATION: u8 = 10;
/// Block frames to inject when starting a combo-fired combat art.
pub const ART_BLOCK_INJECTION_DURATION: u8 = 2;
pub const ATTACK_SUPRESSION_DURATION: u8 = 4;
pub const PROSTHETIC_SUPRESSION_DURATION: u8 = 2;
/// Window for first key then q/t (about 0.3s at 60fps).
pub const TOOL_FIRST_MAX_AGE: u16 = 18;
/// Frames of automatic fire for a combo whose last key is already up.
pub const ART_TAP_FRAMES: u8 = 5;
/// USE frames guaranteed after equipping a prosthetic.
pub const TOOL_MIN_USE: u8 = 3;

pub const ASHINA_CROSS: u32 = 5500;
pub const ONE_MIND: u32 = 6100;
pub const SAKURA_DANCE: u32 = 7700;
pub const ICHIMONJI: u32 = 5300;
pub const ICHIMONJI_DOUBLE: u32 = 7100;
pub const PRAYING_STRIKES: u32 = 5900;
pub const PRAYING_STRIKES_EXORCISM: u32 = 7500;
pub const SENPO_LEAPING_KICKS: u32 = 5800;
pub const HIGH_MONK: u32 = 7400;
pub const SHADOWRUSH: u32 = 6000;
pub const SHADOWFALL: u32 = 7600;
pub const MORTAL_DRAW: u32 = 5700;
pub const EMPOWERED_MORTAL_DRAW: u32 = 7300;

pub const ATTACK: u64 = 0x1;
pub const BLOCK: u64 = 0x4;
pub const JUMP: u64 = 0x10;
pub const INTERACT: u64 = 0x1000;
pub const DODGE: u64 = 0x2000;
pub const USE_PROSTHETIC: u64 = 0x40040002;
pub const SWITCH_PROSTHETIC: u64 = 0x400;

pub const COMBAT_ART_SLOT: u8 = 1;

//----------------------------------------------------------------------------
//  What the host reads and writes
//----------------------------------------------------------------------------

/// An inventory item id: never zero.
#[derive(Clone, Copy, PartialEq, Eq, Structural, Debug)]
pub struct ItemID {
    id: u32,
}

impl ItemID {
    pub closed spec fn value(self) -> u32 {
        self.id
    }

    #[verifier::type_invariant]
    spec fn nonzero(self) -> bool {
        self.id != 0
    }

    /// `None` for zero.
    pub fn new(value: u32) -> (r: Option<ItemID>)
        ensures
            value == 0 <==> r is None,
            r matches Some(i) ==> i.value() == value,
    {
        if value == 0 {
            None
        } else {
            Some(ItemID { id: value })
        }
    }

    pub fn get(self) -> (r: u32)
        ensures
            r == self.value(),
            r != 0,
    {
        proof {
            use_type_invariant(&self);
        }
        self.id
    }
}

/// One of the three prosthetic slots (slot indices 0, 2, 4).
#[derive(Clone, Copy, PartialEq, Eq, Structural, Debug)]
pub enum ProstheticSlot {
    S0,
    S1,
    S2,
}

pub open spec fn slot_index(slot: ProstheticSlot) -> u8 {
    match slot {
        ProstheticSlot::S0 => 0,
        ProstheticSlot::S1 => 2,
        ProstheticSlot::S2 => 4,
    }
}

impl ProstheticSlot {
    pub fn as_slot_index(self) -> (r: u8)
        ensures
            r == slot_index(self),
    {
        match self {
            ProstheticSlot::S0 => 0,
            ProstheticSlot::S1 => 2,
            ProstheticSlot::S2 => 4,
        }
    }

    /// The slot for the game's active prosthetic number; `None` for a number
    /// that names no slot.
    pub fn from_active(n: u32) -> (r: Option<ProstheticSlot>)
        ensures
            r == match n {
                0 => Some(ProstheticSlot::S0),
                1 => Some(ProstheticSlot::S1),
                2 => Some(ProstheticSlot::S2),
                _ => None::<ProstheticSlot>,
            },
    {
        match n {
            0 => Some(ProstheticSlot::S0),
            1 => Some(ProstheticSlot::S1),
            2 => Some(ProstheticSlot::S2),
            _ => None,
        }
    }
}

/// The prosthetic part of the player's equipment: the active slot and the raw
/// item ids at slot indices 0, 2 and 4.
#[derive(Clone, Copy, PartialEq, Eq, Structural, Debug)]
pub struct Equipment {
    pub active: ProstheticSlot,
    pub slot0: u32,
    pub slot2: u32,
    pub slot4: u32,
}

/// Put `item` into equipment slot `slot_index`.
#[derive(Clone, Copy, PartialEq, Eq, Structural, Debug)]
pub struct SlotWrite {
    pub slot_index: u8,
    pub item: u32,
}

/// From the end of a tool lock back to the bare-`t` default: about 1.4s at
/// 60 fps.
pub const PROSTHETIC_RETURN_DELAY: u16 = 84;
/// Art-swap cooldowns at 60 fps after performing each art.
pub const SWAPOUT_ASHINA_CROSS: u16 = 75;
pub const SWAPOUT_ONE_MIND: u16 = 240;
pub const SWAPOUT_SAKURA_DANCE: u16 = 60;
pub const SWAPOUT_OTHER: u16 = 40;

/// The locks that belong to prosthetics (UIDs 70000..=100000), in order.
pub open spec fn prosthetic_locks(locks: Seq<(u32, u16)>) -> Seq<(u32, u16)>
    decreases locks.len(),
{
    if locks.len() == 0 {
        locks
    } else if 70000 <= locks.last().0 <= 100000 {
        prosthetic_locks(locks.drop_last()).push(locks.last())
    } else {
        prosthetic_locks(locks.drop_last())
    }
}

/// The frame budget at 60 fps, given the default tool lock and the locks of
/// the looked-up UIDs, both in frames; only prosthetics keep a lock.
pub fn standard_frame_budget(tool_lock: u16, locks: &Vec<(u32, u16)>) -> (r: FrameBudget)
    ensures
        r.return_delay == PROSTHETIC_RETURN_DELAY,
        r.tool_lock == tool_lock,
        r.tool_locks@ == prosthetic_locks(locks@),
        r.swapout_ashina_cross == SWAPOUT_ASHINA_CROSS,
        r.swapout_one_mind == SWAPOUT_ONE_MIND,
        r.swapout_sakura_dance == SWAPOUT_SAKURA_DANCE,
        r.swapout_other == SWAPOUT_OTHER,
        r.swapout_none == 0,
{
    let mut kept: Vec<(u32, u16)> = Vec::new();
    let mut i: usize = 0;
    while i < locks.len()
        invariant
            i <= locks.len(),
            kept@ == prosthetic_locks(locks@.take(i as int)),
        decreases locks.len() - i,
    {
        assert(locks@.take(i + 1).drop_last() =~= locks@.take(i as int));
        let (u, f) = locks[i];
        if 70000 <= u && u <= 100000 {
            kept.push((u, f));
        }
        i = i + 1;
    }
    assert(locks@.take(i as int) =~= locks@);
    FrameBudget {
        return_delay: PROSTHETIC_RETURN_DELAY,
        tool_lock,
        tool_locks: kept,
        swapout_ashina_cross: SWAPOUT_ASHINA_CROSS,
        swapout_one_mind: SWAPOUT_ONE_MIND,
        swapout_sakura_dance: SWAPOUT_SAKURA_DANCE,
        swapout_other: SWAPOUT_OTHER,
        swapout_none: 0,
    }
}

/// The inventory's answer to "which item id has this UID", as `(uid, raw id)`.
pub struct ItemTable {
    pub entries: Vec<(u32, u32)>,
}

/// Frame counts at the current frame rate of the durations the mod uses.
#[derive(Debug)]
pub struct FrameBudget {
    /// About 1.4s: from the end of a tool lock back to the bare-`t` default.
    pub return_delay: u16,
    /// About 1s: the default lock after a tool's tail key is released, during
    /// which switching tools is blocked.
    pub tool_lock: u16,
    /// The lock of each prosthetic that has one of its own, as `(uid, frames)`;
    /// the first entry of a UID counts.
    pub tool_locks: Vec<(u32, u16)>,
    /// Art-swap cooldowns after performing each art.
    pub swapout_ashina_cross: u16,
    pub swapout_one_mind: u16,
    pub swapout_sakura_dance: u16,
    pub swapout_other: u16,
    /// Cooldown when no art is equipped yet.
    pub swapout_none: u16,
}

/// The three action bitfields of the game's input handler.
#[derive(Clone, Copy, PartialEq, Eq, Structural, Debug)]
pub struct Actions {
    pub action: u64,
    pub action_b: u64,
    pub action_c: u64,
}

/// Combat-art directions this frame (WASD or the left stick).
#[derive(Clone, Copy, PartialEq, Eq, Structural, Debug)]
pub struct Directions {
    pub up: bool,
    pub right: bool,
    pub down: bool,
    pub left: bool,
}

/// Which combo tokens are held this frame.
#[derive(Clone, Copy, PartialEq, Eq, Structural, Debug)]
pub struct TokenHeld {
    pub up: bool,
    pub right: bool,
    pub down: bool,
    pub left: bool,
    pub block: bool,
    pub attack: bool,
    pub interact: bool,
}

/// The combo window after this frame's tick: the combo it completed (taken
/// out of it), whether it waits for a second token, and the held tokens.
#[derive(Clone, Copy, PartialEq, Eq, Structural, Debug)]
pub struct ComboReading {
    pub completed: Option<ArtCombo>,
    pub awaiting_second: bool,
    pub held: TokenHeld,
}

pub open spec fn token_held(r: ComboReading, t: ArtToken) -> bool {
    match t {
        ArtToken::Up => r.held.up,
        ArtToken::Right => r.held.right,
        ArtToken::Down => r.held.down,
        ArtToken::Left => r.held.left,
        ArtToken::Block => r.held.block,
        ArtToken::Attack => r.held.attack,
        ArtToken::Interact => r.held.interact,
    }
}

pub fn token_held_exec(r: &ComboReading, t: ArtToken) -> (b: bool)
    ensures
        b == token_held(*r, t),
{
    match t {
        ArtToken::Up => r.held.up,
        ArtToken::Right => r.held.right,
        ArtToken::Down => r.held.down,
        ArtToken::Left => r.held.left,
        ArtToken::Block => r.held.block,
        ArtToken::Attack => r.held.attack,
        ArtToken::Interact => r.held.interact,
    }
}

/// What the host does after a frame.
pub struct FrameEffects {
    /// Slot writes to perform, in order.
    pub writes: Vec<SlotWrite>,
    /// Clear the combo window (a combo was consumed).
    pub clear_combo: bool,
}

//----------------------------------------------------------------------------
//  State
//----------------------------------------------------------------------------

/// Everything the mod remembers from frame to frame.
#[derive(Clone, Copy, Debug)]
pub struct ModState {
    pub cur_art: Option<u32>,
    pub blocking_last_frame: bool,
    pub attacking_last_frame: bool,
    pub interacting_last_frame: bool,
    pub using_tool_last_frame: bool,
    /// Art-swap cooldown: frames left, and whether it started counting.
    pub swapout_value: u16,
    pub swapout_running: bool,
    pub attack_delay: u8,
    pub prosthetic_delay: u8,
    pub injected_blocks: u8,
    pub disable_block: bool,
    /// After a fresh art swap, start firing once `attack_delay` ends.
    pub pending_rl_attack: bool,
    /// Keep injecting ATTACK while this combo's last token stays held.
    pub hold_for_attack: Option<ArtToken>,
    /// Remaining BLOCK-only prime frames (ATTACK suppressed) at art start.
    pub art_block_inject_left: u8,
    /// True after the first BLOCK|ATTACK frame that opens the art.
    pub art_attack_latched: bool,
    /// Latest combo art waiting until sustained fire ends (newest wins).
    pub queued_art: Option<(u32, ArtToken)>,
    /// Frames of fire left when the hold key is already up.
    pub art_tap_frames: u8,
    /// Pending first key of a prosthetic combo, waiting for q/t.
    pub tool_first: Option<ToolFirst>,
    pub tool_first_age: u16,
    /// While set, keep injecting USE until this tail key is released.
    pub hold_tool_tail: Option<ToolTail>,
    /// USE frames still guaranteed after equip.
    pub tool_min_use: u8,
    /// Last prosthetic armed.
    pub cur_tool: Option<u32>,
    /// Frames left before returning to the bare-`t` default.
    pub return_default_left: u16,
    /// Frames left where switching tools is blocked.
    pub tool_lock_left: u16,
    pub switch_down_last: bool,
    pub tools_inited: bool,
    pub key_up: bool,
    pub key_right: bool,
    pub key_down: bool,
    pub key_left: bool,
    pub tool_block_down: bool,
    pub tool_attack_down: bool,
    pub tool_interact_down: bool,
    /// A tool pushed out of the active slot, and the slot it came from.
    pub ejection: Option<(u32, ProstheticSlot)>,
}

pub open spec fn initial_state() -> ModState {
    ModState {
        cur_art: None,
        blocking_last_frame: false,
        attacking_last_frame: false,
        interacting_last_frame: false,
        using_tool_last_frame: false,
        swapout_value: 0,
        swapout_running: false,
        attack_delay: 0,
        prosthetic_delay: 0,
        injected_blocks: 0,
        disable_block: false,
        pending_rl_attack: false,
        hold_for_attack: None,
        art_block_inject_left: 0,
        art_attack_latched: false,
        queued_art: None,
        art_tap_frames: 0,
        tool_first: None,
        tool_first_age: 0,
        hold_tool_tail: None,
        tool_min_use: 0,
        cur_tool: None,
        return_default_left: 0,
        tool_lock_left: 0,
        switch_down_last: false,
        tools_inited: false,
        key_up: false,
        key_right: false,
        key_down: false,
        key_left: false,
        tool_block_down: false,
        tool_attack_down: false,
        tool_interact_down: false,
        ejection: None,
    }
}

/// The state, the equipment and the slot writes made so far this frame.
pub struct World {
    pub s: ModState,
    pub e: Equipment,
    pub w: Seq<SlotWrite>,
}

pub open spec fn world(s: ModState, e: Equipment, w: Seq<SlotWrite>) -> World {
    World { s, e, w }
}

//----------------------------------------------------------------------------
//  Items and slots
//----------------------------------------------------------------------------

/// The raw id the inventory gives for `uid` (first entry for it).
pub open spec fn item_raw(table: Seq<(u32, u32)>, uid: u32) -> Option<u32>
    decreases table.len(),
{
    if table.len() == 0 {
        None
    } else if table[0].0 == uid {
        Some(table[0].1)
    } else {
        item_raw(table.drop_first(), uid)
    }
}

/// The usable item id of `uid`: nonzero and below 0xFFFF.
pub open spec fn item_id(table: Seq<(u32, u32)>, uid: u32) -> Option<u32> {
    match item_raw(table, uid) {
        Some(r) => if r != 0 && r < 0xFFFF {
            Some(r)
        } else {
            None
        },
        None => None,
    }
}

pub open spec fn slot_raw(e: Equipment, slot: ProstheticSlot) -> u32 {
    match slot {
        ProstheticSlot::S0 => e.slot0,
        ProstheticSlot::S1 => e.slot2,
        ProstheticSlot::S2 => e.slot4,
    }
}

/// The tool in a slot: none for an empty (0) or unset (256) slot.
pub open spec fn get_tool(e: Equipment, slot: ProstheticSlot) -> Option<u32> {
    let r = slot_raw(e, slot);
    if r != 256 && r != 0 {
        Some(r)
    } else {
        None
    }
}

pub open spec fn with_slot(e: Equipment, slot: ProstheticSlot, item: u32) -> Equipment {
    match slot {
        ProstheticSlot::S0 => Equipment { slot0: item, ..e },
        ProstheticSlot::S1 => Equipment { slot2: item, ..e },
        ProstheticSlot::S2 => Equipment { slot4: item, ..e },
    }
}

pub open spec fn write_slot(wd: World, slot: ProstheticSlot, item: u32) -> World {
    World {
        s: wd.s,
        e: with_slot(wd.e, slot, item),
        w: wd.w.push(SlotWrite { slot_index: slot_index(slot), item }),
    }
}

/// The first slot (0, 1, 2) that holds the item of `uid`.
pub open spec fn locate(e: Equipment, table: Seq<(u32, u32)>, uid: u32) -> Option<ProstheticSlot> {
    match item_id(table, uid) {
        None => None,
        Some(id) => if e.slot0 == id {
            Some(ProstheticSlot::S0)
        } else if e.slot2 == id {
            Some(ProstheticSlot::S1)
        } else if e.slot4 == id {
            Some(ProstheticSlot::S2)
        } else {
            None
        },
    }
}

/// Put an ejected tool back once the active slot is another one.
pub open spec fn revert_ejection(wd: World) -> World {
    match wd.s.ejection {
        Some((tool, orig)) => if wd.e.active != orig {
            let w2 = write_slot(wd, orig, tool);
            World { s: ModState { ejection: None, ..w2.s }, ..w2 }
        } else {
            wd
        },
        None => wd,
    }
}

/// Equip `uid` into the active slot: swap it in from another slot, or put it
/// there and remember the tool it pushed out. `false` when it has no item.
pub open spec fn equip_tool(wd: World, table: Seq<(u32, u32)>, uid: u32) -> (bool, World) {
    let w1 = revert_ejection(wd);
    let active = w1.e.active;
    match item_id(table, uid) {
        None => (false, w1),
        Some(want) => if get_tool(w1.e, active) == Some(want) {
            (true, w1)
        } else {
            match locate(w1.e, table, uid) {
                Some(other) => {
                    let displaced = get_tool(w1.e, active);
                    let w2 = write_slot(w1, active, want);
                    match displaced {
                        Some(d) => (true, write_slot(w2, other, d)),
                        None => (true, w2),
                    }
                },
                None => {
                    let prev = get_tool(w1.e, active);
                    let w2 = write_slot(w1, active, want);
                    match prev {
                        Some(t) => if w2.s.ejection is None {
                            (true, World { s: ModState { ejection: Some((t, active)), ..w2.s }, ..w2 })
                        } else {
                            (true, w2)
                        },
                        None => (true, w2),
                    }
                },
            }
        },
    }
}

//----------------------------------------------------------------------------
//  Prosthetic decisions
//----------------------------------------------------------------------------

/// Go back to the bare-`t` default tool.
pub open spec fn return_to_default(wd: World, cfg: ConfigModel, table: Seq<(u32, u32)>) -> World {
    let w1 = World {
        s: ModState {
            return_default_left: 0,
            tool_lock_left: 0,
            hold_tool_tail: None,
            tool_min_use: 0,
            ..wd.s
        },
        ..wd
    };
    match cfg.tool_on_t {
        None => w1,
        Some(uid) => {
            let (ok, w2) = equip_tool(w1, table, uid);
            if ok {
                World { s: ModState { cur_tool: Some(uid), prosthetic_delay: PROSTHETIC_SUPRESSION_DURATION, ..w2.s }, ..w2 }
            } else {
                w2
            }
        },
    }
}

/// The own lock frames of prosthetic `uid` (first entry for it).
pub open spec fn lock_lookup(locks: Seq<(u32, u16)>, uid: u32) -> Option<u16>
    decreases locks.len(),
{
    if locks.len() == 0 {
        None
    } else if locks[0].0 == uid {
        Some(locks[0].1)
    } else {
        lock_lookup(locks.drop_first(), uid)
    }
}

/// The lock frames of the tool `cur`: its own, else the default.
pub open spec fn lock_frames(budget: FrameBudget, cur: Option<u32>) -> u16 {
    match cur {
        Some(u) => match lock_lookup(budget.tool_locks@, u) {
            Some(f) => f,
            None => budget.tool_lock,
        },
        None => budget.tool_lock,
    }
}

/// The frames a lock of the tool `cur` starts with: at least one. The lock
/// holds while the tail is down and counts down from the release frame on, so
/// a zero lock ends in the release frame itself (which starts the way back to
/// the default) and no frame after the release is locked.
pub open spec fn lock_start(budget: FrameBudget, cur: Option<u32>) -> u16 {
    let f = lock_frames(budget, cur);
    if f == 0 {
        1
    } else {
        f
    }
}

/// Start the lock of the current tool over.
pub open spec fn refresh_lock(s: ModState, budget: FrameBudget) -> ModState {
    ModState { tool_lock_left: lock_start(budget, s.cur_tool), return_default_left: 0, ..s }
}

/// `t` or `q` pressed again during a lock: the current tool fires again (more
/// USE while `tail` is held) and its lock starts over.
pub open spec fn rehit(s: ModState, budget: FrameBudget, tail: ToolTail) -> ModState {
    let s1 = refresh_lock(s, budget);
    ModState {
        tool_min_use: if s1.tool_min_use >= TOOL_MIN_USE {
            s1.tool_min_use
        } else {
            TOOL_MIN_USE
        },
        hold_tool_tail: Some(tail),
        prosthetic_delay: 0,
        tool_first: None,
        ..s1
    }
}

/// During a lock only the current tool may be armed again.
pub open spec fn lock_refuses(s: ModState, uid: u32) -> bool {
    s.tool_lock_left > 0 && s.cur_tool is Some && s.cur_tool != Some(uid)
}

/// Equip `uid` and start injecting USE while `tail` is held.
#[verifier::opaque]
pub open spec fn arm_tool(
    wd: World,
    table: Seq<(u32, u32)>,
    budget: FrameBudget,
    uid: u32,
    tail: ToolTail,
) -> World {
    if lock_refuses(wd.s, uid) {
        wd
    } else {
        let (ok, w2) = equip_tool(wd, table, uid);
        if ok {
            let s3 = refresh_lock(
                ModState {
                    cur_tool: Some(uid),
                    hold_tool_tail: Some(tail),
                    tool_min_use: TOOL_MIN_USE,
                    prosthetic_delay: PROSTHETIC_SUPRESSION_DURATION,
                    ..w2.s
                },
                budget,
            );
            World { s: ModState { tool_first: None, tool_first_age: 0, ..s3 }, ..w2 }
        } else {
            w2
        }
    }
}

pub open spec fn push_first(s: ModState, t: ToolFirst) -> ModState {
    ModState { tool_first: Some(t), tool_first_age: 0, ..s }
}

#[verifier::opaque]
pub open spec fn edge_up(s: ModState, held: bool) -> ModState {
    let s1 = if held && !s.key_up {
        push_first(s, ToolFirst::Up)
    } else {
        s
    };
    ModState { key_up: held, ..s1 }
}

#[verifier::opaque]
pub open spec fn edge_right(s: ModState, held: bool) -> ModState {
    let s1 = if held && !s.key_right {
        push_first(s, ToolFirst::Right)
    } else {
        s
    };
    ModState { key_right: held, ..s1 }
}

#[verifier::opaque]
pub open spec fn edge_down(s: ModState, held: bool) -> ModState {
    let s1 = if held && !s.key_down {
        push_first(s, ToolFirst::Down)
    } else {
        s
    };
    ModState { key_down: held, ..s1 }
}

#[verifier::opaque]
pub open spec fn edge_left(s: ModState, held: bool) -> ModState {
    let s1 = if held && !s.key_left {
        push_first(s, ToolFirst::Left)
    } else {
        s
    };
    ModState { key_left: held, ..s1 }
}

#[verifier::opaque]
pub open spec fn edge_block(s: ModState, held: bool) -> ModState {
    let s1 = if held && !s.tool_block_down {
        push_first(s, ToolFirst::Block)
    } else {
        s
    };
    ModState { tool_block_down: held, ..s1 }
}

#[verifier::opaque]
pub open spec fn edge_attack(s: ModState, held: bool) -> ModState {
    let s1 = if held && !s.tool_attack_down {
        push_first(s, ToolFirst::Attack)
    } else {
        s
    };
    ModState { tool_attack_down: held, ..s1 }
}

#[verifier::opaque]
pub open spec fn edge_interact(s: ModState, held: bool) -> ModState {
    let s1 = if held && !s.tool_interact_down {
        push_first(s, ToolFirst::Interact)
    } else {
        s
    };
    ModState { tool_interact_down: held, ..s1 }
}

/// Rising edges of directions / r / l / e start a prosthetic combo.
pub open spec fn first_edges(
    s: ModState,
    d: Directions,
    blocking: bool,
    attacking: bool,
    interacting: bool,
) -> ModState {
    edge_interact(
        edge_attack(
            edge_block(edge_left(edge_down(edge_right(edge_up(s, d.up), d.right), d.down), d.left), blocking),
            attacking,
        ),
        interacting,
    )
}

/// A pending first key expires after `TOOL_FIRST_MAX_AGE` frames.
pub open spec fn age_first(s: ModState) -> ModState {
    if s.tool_first is Some {
        let a: u16 = if s.tool_first_age < 0xFFFF {
            (s.tool_first_age + 1) as u16
        } else {
            0xFFFF
        };
        if a >= TOOL_FIRST_MAX_AGE {
            ModState { tool_first: None, tool_first_age: 0, ..s }
        } else {
            ModState { tool_first_age: a, ..s }
        }
    } else {
        s
    }
}

/// The game's own switch-prosthetic input is swallowed.
pub open spec fn swallow_switch(a: Actions) -> Actions {
    if a.action & SWITCH_PROSTHETIC != 0 {
        Actions {
            action: a.action & !SWITCH_PROSTHETIC,
            action_b: a.action_b & !SWITCH_PROSTHETIC,
            action_c: a.action_c & !SWITCH_PROSTHETIC,
        }
    } else {
        a
    }
}

pub open spec fn tool_bind(cfg: ConfigModel, first: ToolFirst, tail: ToolTail) -> Option<u32> {
    bind_get(cfg.tools, tool_code(ToolCombo { first, tail }))
}

/// `q` pressed: re-fire during a lock, finish a pending combo with `q` (else
/// start one with `q` first), or arm the bare-`q` tool (else start a combo with
/// `q` first).
#[verifier::opaque]
pub open spec fn switch_phase(
    wd: World,
    cfg: ConfigModel,
    table: Seq<(u32, u32)>,
    budget: FrameBudget,
    switch_down: bool,
) -> World {
    let rising = switch_down && !wd.s.switch_down_last;
    let w0 = World { s: ModState { switch_down_last: switch_down, ..wd.s }, ..wd };
    if rising {
        if w0.s.tool_lock_left > 0 {
            World { s: rehit(w0.s, budget, ToolTail::Switch), ..w0 }
        } else {
            match w0.s.tool_first {
                Some(f) => match tool_bind(cfg, f, ToolTail::Switch) {
                    Some(uid) => arm_tool(w0, table, budget, uid, ToolTail::Switch),
                    None => World { s: push_first(w0.s, ToolFirst::Switch), ..w0 },
                },
                None => match cfg.tool_on_q {
                    Some(uid) => arm_tool(w0, table, budget, uid, ToolTail::Switch),
                    None => World { s: push_first(w0.s, ToolFirst::Switch), ..w0 },
                },
            }
        }
    } else {
        w0
    }
}

/// `t` pressed: re-fire during a lock, finish a pending combo with `t`, or arm
/// the bare-`t` default.
#[verifier::opaque]
pub open spec fn use_phase(
    wd: World,
    cfg: ConfigModel,
    table: Seq<(u32, u32)>,
    budget: FrameBudget,
    used_now: bool,
) -> World {
    if !used_now {
        wd
    } else if wd.s.tool_lock_left > 0 {
        World { s: rehit(wd.s, budget, ToolTail::Use), ..wd }
    } else {
        match wd.s.tool_first {
            Some(f) => match tool_bind(cfg, f, ToolTail::Use) {
                Some(uid) => arm_tool(wd, table, budget, uid, ToolTail::Use),
                None => World { s: ModState { tool_first: None, ..wd.s }, ..wd },
            },
            None => match cfg.tool_on_t {
                Some(uid) => arm_tool(wd, table, budget, uid, ToolTail::Use),
                None => wd,
            },
        }
    }
}

/// Keep the armed tool while its tail is held; drop the hold on release.
pub open spec fn sustain_phase(s: ModState, switch_down: bool, using: bool, used_now: bool) -> ModState {
    if s.hold_tool_tail is Some || s.tool_min_use > 0 {
        let held = match s.hold_tool_tail {
            Some(ToolTail::Switch) => switch_down,
            Some(ToolTail::Use) => using || used_now,
            None => false,
        };
        if s.prosthetic_delay > 0 || held || s.tool_min_use > 0 {
            ModState { return_default_left: 0, ..s }
        } else {
            ModState { hold_tool_tail: None, ..s }
        }
    } else {
        s
    }
}

/// Count the lock down while the tail is released (a held tail keeps it); once
/// it ends, count down to the default tool.
#[verifier::opaque]
pub open spec fn lock_phase(
    wd: World,
    cfg: ConfigModel,
    table: Seq<(u32, u32)>,
    budget: FrameBudget,
) -> World {
    if wd.s.tool_lock_left > 0 && wd.s.hold_tool_tail is Some {
        World { s: ModState { return_default_left: 0, ..wd.s }, ..wd }
    } else if wd.s.tool_lock_left > 0 {
        let s1 = ModState { tool_lock_left: (wd.s.tool_lock_left - 1) as u16, return_default_left: 0, ..wd.s };
        if s1.tool_lock_left == 0 && s1.tool_min_use == 0 {
            let is_default = cfg.tool_on_t is Some && s1.cur_tool == cfg.tool_on_t;
            if !is_default {
                World { s: ModState { return_default_left: budget.return_delay, ..s1 }, ..wd }
            } else {
                World { s: s1, ..wd }
            }
        } else {
            World { s: s1, ..wd }
        }
    } else if wd.s.return_default_left > 0 {
        let s1 = ModState { return_default_left: (wd.s.return_default_left - 1) as u16, ..wd.s };
        if s1.return_default_left == 0 {
            return_to_default(World { s: s1, ..wd }, cfg, table)
        } else {
            World { s: s1, ..wd }
        }
    } else {
        wd
    }
}

/// The prosthetic part of a frame.
pub open spec fn prosthetic_phase(
    wd: World,
    acts: Actions,
    cfg: ConfigModel,
    table: Seq<(u32, u32)>,
    budget: FrameBudget,
    d: Directions,
    blocking: bool,
    attacking: bool,
    interacting: bool,
    using: bool,
    used_now: bool,
) -> (World, Actions) {
    let s1 = age_first(first_edges(wd.s, d, blocking, attacking, interacting));
    let switch_down = acts.action & SWITCH_PROSTHETIC != 0;
    let w2 = switch_phase(World { s: s1, ..wd }, cfg, table, budget, switch_down);
    let w3 = use_phase(w2, cfg, table, budget, used_now);
    let w4 = World { s: sustain_phase(w3.s, switch_down, using, used_now), ..w3 };
    (lock_phase(w4, cfg, table, budget), swallow_switch(acts))
}

//----------------------------------------------------------------------------
//  Combat-art decisions
//----------------------------------------------------------------------------

pub open spec fn clear_art_fire(s: ModState) -> ModState {
    ModState {
        hold_for_attack: None,
        art_block_inject_left: 0,
        art_attack_latched: false,
        pending_rl_attack: false,
        art_tap_frames: 0,
        ..s
    }
}

pub open spec fn arm_combo_fire(s: ModState, hold: ArtToken, held: bool) -> ModState {
    ModState {
        hold_for_attack: Some(hold),
        art_block_inject_left: 0,
        art_attack_latched: false,
        art_tap_frames: if held {
            0
        } else {
            ART_TAP_FRAMES
        },
        ..s
    }
}

/// A combo-fired art is still settling or being fired.
pub open spec fn art_fire_busy(s: ModState) -> bool {
    s.hold_for_attack is Some || s.pending_rl_attack || s.attack_delay > 0 || s.art_block_inject_left
        > 0 || s.art_tap_frames > 0
}

/// Jump or dodge aborts the fire and the queue; releasing the last key ends it.
pub open spec fn abort_phase(s: ModState, r: ComboReading, jumping: bool, dodging: bool) -> ModState {
    if jumping || dodging {
        ModState { queued_art: None, ..clear_art_fire(s) }
    } else {
        match s.hold_for_attack {
            Some(t) => if !token_held(r, t) && s.art_tap_frames == 0 {
                clear_art_fire(s)
            } else {
                s
            },
            None => s,
        }
    }
}

/// The art-swap cooldown counts down once started, or while attack is up.
pub open spec fn swapout_phase(s: ModState, attacking: bool) -> ModState {
    if s.swapout_value != 0 && (!attacking || s.swapout_running) {
        ModState { swapout_value: (s.swapout_value - 1) as u16, swapout_running: true, ..s }
    } else {
        s
    }
}

/// The art chosen this frame.
pub struct ArtChoice {
    pub s: ModState,
    pub desired: Option<u32>,
    /// An art fired by combo (no block needed).
    pub combo_fired: bool,
    /// The combo window is to be cleared.
    pub cleared: bool,
}

pub open spec fn art_second(c: ArtCombo) -> Option<ArtToken> {
    match c {
        ArtCombo::Empty => None,
        ArtCombo::Pair(_, b) => Some(b),
    }
}

/// A completed combo fires its art, or queues it while another is firing; a
/// queued art fires once the previous fire ends.
pub open spec fn select_art(s: ModState, cfg: ConfigModel, r: ComboReading) -> ArtChoice {
    match r.completed {
        Some(combo) => match (bind_get(cfg.arts, art_code(combo)), art_second(combo)) {
            (Some(uid), Some(hold)) => if art_fire_busy(s) {
                ArtChoice {
                    s: ModState { queued_art: Some((uid, hold)), ..s },
                    desired: None,
                    combo_fired: false,
                    cleared: true,
                }
            } else {
                ArtChoice {
                    s: ModState { queued_art: None, ..arm_combo_fire(s, hold, token_held(r, hold)) },
                    desired: Some(uid),
                    combo_fired: true,
                    cleared: true,
                }
            },
            _ => ArtChoice { s, desired: None, combo_fired: false, cleared: false },
        },
        None => if !art_fire_busy(s) {
            match s.queued_art {
                Some((uid, hold)) => ArtChoice {
                    s: arm_combo_fire(ModState { queued_art: None, ..s }, hold, token_held(r, hold)),
                    desired: Some(uid),
                    combo_fired: true,
                    cleared: false,
                },
                None => ArtChoice { s, desired: None, combo_fired: false, cleared: false },
            }
        } else {
            ArtChoice { s, desired: None, combo_fired: false, cleared: false }
        },
    }
}

/// A bare block press selects the `∅` art, unless block starts a combo. After
/// a clear the window waits for nothing.
pub open spec fn bare_block(c: ArtChoice, cfg: ConfigModel, r: ComboReading, blocked_now: bool) -> ArtChoice {
    if c.desired is Some {
        c
    } else if !blocked_now || c.s.swapout_value != 0 || c.combo_fired {
        c
    } else if r.awaiting_second && !c.cleared {
        c
    } else {
        ArtChoice { desired: bind_get(cfg.arts, art_code(ArtCombo::Empty)), cleared: true, ..c }
    }
}

pub open spec fn swapout_cooldown(cur: Option<u32>, budget: FrameBudget) -> u16 {
    match cur {
        None => budget.swapout_none,
        Some(u) => if u == ASHINA_CROSS {
            budget.swapout_ashina_cross
        } else if u == ONE_MIND {
            budget.swapout_one_mind
        } else if u == SAKURA_DANCE {
            budget.swapout_sakura_dance
        } else {
            budget.swapout_other
        },
    }
}

/// Performing an art starts the swap cooldown of the art equipped.
pub open spec fn swapout_reset(s: ModState, performed_art: bool, combo_fired: bool, budget: FrameBudget) -> ModState {
    if performed_art || (combo_fired && s.swapout_value == 0) {
        ModState { swapout_value: swapout_cooldown(s.cur_art, budget), swapout_running: false, ..s }
    } else {
        s
    }
}

/// The basic art to try when an upgraded art is not in the inventory.
pub open spec fn art_fallback(uid: u32) -> Option<u32> {
    if uid == ICHIMONJI_DOUBLE {
        Some(ICHIMONJI)
    } else if uid == PRAYING_STRIKES_EXORCISM {
        Some(PRAYING_STRIKES)
    } else if uid == HIGH_MONK {
        Some(SENPO_LEAPING_KICKS)
    } else if uid == SHADOWFALL {
        Some(SHADOWRUSH)
    } else if uid == EMPOWERED_MORTAL_DRAW {
        Some(MORTAL_DRAW)
    } else {
        None
    }
}

/// Equip art `d` when it is not equipped; `None` when it has no item.
pub open spec fn try_art(wd: World, table: Seq<(u32, u32)>, d: u32) -> Option<World> {
    if wd.s.cur_art == Some(d) {
        Some(wd)
    } else {
        match item_id(table, d) {
            Some(id) => Some(
                World {
                    s: ModState { cur_art: Some(d), attack_delay: ATTACK_SUPRESSION_DURATION, ..wd.s },
                    w: wd.w.push(SlotWrite { slot_index: COMBAT_ART_SLOT, item: id }),
                    ..wd
                },
            ),
            None => None,
        }
    }
}

/// Equip the desired art, or its basic version.
pub open spec fn equip_art(wd: World, table: Seq<(u32, u32)>, d: u32) -> World {
    match try_art(wd, table, d) {
        Some(w) => w,
        None => match art_fallback(d) {
            Some(f) => match try_art(wd, table, f) {
                Some(w) => w,
                None => wd,
            },
            None => wd,
        },
    }
}

pub open spec fn is_sheathed(cur: Option<u32>) -> bool {
    cur == Some(ASHINA_CROSS) || cur == Some(ONE_MIND)
}

/// Block injection for arts performed by the game's own block+attack.
#[verifier::opaque]
pub open spec fn legacy_injection(
    s: ModState,
    act: u64,
    combo_fired: bool,
    jumping: bool,
    dodging: bool,
    attacking: bool,
    blocking: bool,
) -> (ModState, u64) {
    if combo_fired {
        (s, act)
    } else if s.injected_blocks >= 1 {
        if jumping || dodging {
            (ModState { injected_blocks: 0, ..s }, act)
        } else if is_sheathed(s.cur_art) {
            if attacking && !blocking {
                (s, act | BLOCK)
            } else {
                (ModState { injected_blocks: 0, ..s }, act)
            }
        } else if s.injected_blocks < BLOCK_INJECTION_DURATION {
            (ModState { injected_blocks: (s.injected_blocks + 1) as u8, ..s }, act | BLOCK)
        } else {
            (s, act)
        }
    } else {
        (s, act)
    }
}

/// Block stays off from a prosthetic use until block is pressed again, an art
/// fires by combo, or use is released.
#[verifier::opaque]
pub open spec fn suppression(
    s: ModState,
    act: u64,
    used_now: bool,
    blocked_now: bool,
    combo_fired: bool,
    using: bool,
) -> (ModState, u64) {
    let d1 = if used_now {
        true
    } else {
        s.disable_block
    };
    let d2 = if blocked_now || combo_fired || !using {
        false
    } else {
        d1
    };
    (ModState { disable_block: d2, ..s }, if d2 {
        act & !BLOCK
    } else {
        act
    })
}

/// Attack stays off for a few frames after an art swap.
#[verifier::opaque]
pub open spec fn attack_delay_phase(s: ModState, act: u64) -> (ModState, u64) {
    if s.attack_delay > 0 {
        (ModState { attack_delay: (s.attack_delay - 1) as u8, ..s }, act & !ATTACK)
    } else {
        (s, act)
    }
}

/// Once settled, a fresh combo art starts with a few block-only frames.
#[verifier::opaque]
pub open spec fn prime_phase(s: ModState) -> ModState {
    if s.attack_delay == 0 && s.pending_rl_attack {
        ModState { pending_rl_attack: false, art_block_inject_left: ART_BLOCK_INJECTION_DURATION, ..s }
    } else {
        s
    }
}

/// Sustained fire: block-only prime frames, then block+attack once to open the
/// art, then attack while the last combo key is held (or tap frames remain).
#[verifier::opaque]
pub open spec fn fire_phase(s: ModState, act: u64, r: ComboReading) -> (ModState, u64) {
    if s.attack_delay == 0 {
        match s.hold_for_attack {
            Some(t) => {
                let held = token_held(r, t);
                let tapping = s.art_tap_frames > 0;
                if held || tapping {
                    let (s1, a1) = if s.art_block_inject_left > 0 {
                        (
                            ModState { art_block_inject_left: (s.art_block_inject_left - 1) as u8, ..s },
                            (act | BLOCK) & !ATTACK,
                        )
                    } else if !s.art_attack_latched {
                        (ModState { art_attack_latched: true, ..s }, (act | ATTACK) | BLOCK)
                    } else {
                        (s, act | ATTACK)
                    };
                    if tapping && !held {
                        let s2 = ModState { art_tap_frames: (s1.art_tap_frames - 1) as u8, ..s1 };
                        if s2.art_tap_frames == 0 {
                            (clear_art_fire(s2), a1)
                        } else {
                            (s2, a1)
                        }
                    } else {
                        (s1, a1)
                    }
                } else {
                    (s, act)
                }
            },
            None => (s, act),
        }
    } else {
        (s, act)
    }
}

/// Prosthetic: settle a few frames after equip, then inject USE while the tail
/// is held (or minimum frames remain).
#[verifier::opaque]
pub open spec fn use_inject_phase(s: ModState, act: u64) -> (ModState, u64) {
    if s.prosthetic_delay != 0 {
        (ModState { prosthetic_delay: (s.prosthetic_delay - 1) as u8, ..s }, act & !USE_PROSTHETIC)
    } else if s.hold_tool_tail is Some || s.tool_min_use > 0 {
        (ModState {
            tool_min_use: if s.tool_min_use > 0 {
                (s.tool_min_use - 1) as u8
            } else {
                0
            },
            ..s
        }, act | USE_PROSTHETIC)
    } else {
        (s, act)
    }
}

/// What one frame gives.
pub struct StepOut {
    pub s: ModState,
    pub acts: Actions,
    pub e: Equipment,
    pub w: Seq<SlotWrite>,
    pub clear_combo: bool,
}

/// The keys of a frame, from the action bits and last frame's.
pub struct FrameKeys {
    pub attacking: bool,
    pub blocking: bool,
    pub interacting: bool,
    pub using: bool,
    pub jumping: bool,
    pub dodging: bool,
    pub attacked_now: bool,
    pub blocked_now: bool,
    pub used_now: bool,
}

pub open spec fn keys_of(snap: u64, s0: ModState) -> FrameKeys {
    FrameKeys {
        attacking: snap & ATTACK != 0,
        blocking: snap & BLOCK != 0,
        interacting: snap & INTERACT != 0,
        using: snap & USE_PROSTHETIC != 0,
        jumping: snap & JUMP != 0,
        dodging: snap & DODGE != 0,
        attacked_now: !s0.attacking_last_frame && snap & ATTACK != 0,
        blocked_now: !s0.blocking_last_frame && snap & BLOCK != 0,
        used_now: !s0.using_tool_last_frame && snap & USE_PROSTHETIC != 0,
    }
}

/// The first frame arms the bare-`t` default; then the prosthetic part.
#[verifier::opaque]
pub open spec fn front_half(
    s0: ModState,
    k: FrameKeys,
    cfg: ConfigModel,
    table: Seq<(u32, u32)>,
    budget: FrameBudget,
    d: Directions,
    acts0: Actions,
    e0: Equipment,
) -> (World, Actions) {
    let w0 = world(s0, e0, Seq::empty());
    let w1 = if !s0.tools_inited {
        let wi = World { s: ModState { tools_inited: true, ..s0 }, ..w0 };
        if cfg.tool_on_t is Some {
            return_to_default(wi, cfg, table)
        } else {
            wi
        }
    } else {
        w0
    };
    prosthetic_phase(
        w1,
        acts0,
        cfg,
        table,
        budget,
        d,
        k.blocking,
        k.attacking,
        k.interacting,
        k.using,
        k.used_now,
    )
}

/// The combat art of the frame: abort, choose, start the cooldown, equip.
#[verifier::opaque]
pub open spec fn art_half(
    w2: World,
    k: FrameKeys,
    cfg: ConfigModel,
    table: Seq<(u32, u32)>,
    budget: FrameBudget,
    r: ComboReading,
) -> (World, bool, bool) {
    let s3 = abort_phase(w2.s, r, k.jumping, k.dodging);
    let s4 = swapout_phase(s3, k.attacking);
    let c6 = bare_block(select_art(s4, cfg, r), cfg, r, k.blocked_now);
    let s7 = swapout_reset(c6.s, k.blocking && k.attacked_now, c6.combo_fired, budget);
    let w8 = match c6.desired {
        Some(dd) => equip_art(World { s: s7, ..w2 }, table, dd),
        None => World { s: s7, ..w2 },
    };
    let s9 = if c6.combo_fired {
        ModState { pending_rl_attack: true, ..w8.s }
    } else {
        w8.s
    };
    (World { s: s9, ..w8 }, c6.combo_fired, c6.cleared)
}

/// The actions of the frame: block, attack and use injection and suppression.
#[verifier::opaque]
pub open spec fn inject_half(
    s9: ModState,
    act: u64,
    k: FrameKeys,
    combo_fired: bool,
    r: ComboReading,
) -> (ModState, u64) {
    let (s10, a10) = legacy_injection(s9, act, combo_fired, k.jumping, k.dodging, k.attacking, k.blocking);
    let (s11, a11) = suppression(s10, a10, k.used_now, k.blocked_now, combo_fired, k.using);
    let (s12, a12) = attack_delay_phase(s11, a11);
    let s13 = prime_phase(s12);
    let (s14, a14) = fire_phase(s13, a12, r);
    let (s15, a15) = use_inject_phase(s14, a14);
    (ModState {
        attacking_last_frame: k.attacking,
        blocking_last_frame: k.blocking,
        interacting_last_frame: k.interacting,
        using_tool_last_frame: k.using,
        ..s15
    }, a15)
}

/// One frame of the mod.
pub open spec fn step(
    s0: ModState,
    cfg: ConfigModel,
    table: Seq<(u32, u32)>,
    budget: FrameBudget,
    d: Directions,
    r: ComboReading,
    acts0: Actions,
    e0: Equipment,
) -> StepOut {
    let k = keys_of(acts0.action, s0);
    let (w2, acts1) = front_half(s0, k, cfg, table, budget, d, acts0, e0);
    let (w9, combo_fired, cleared) = art_half(w2, k, cfg, table, budget, r);
    let (s16, a16) = inject_half(w9.s, acts1.action, k, combo_fired, r);
    StepOut { s: s16, acts: Actions { action: a16, ..acts1 }, e: w9.e, w: w9.w, clear_combo: cleared }
}

//----------------------------------------------------------------------------
//  Executable frame
//----------------------------------------------------------------------------

pub fn item_id_exec(table: &ItemTable, uid: u32) -> (r: Option<u32>)
    ensures
        r == item_id(table.entries@, uid),
{
    let mut i: usize = 0;
    assert(table.entries@.skip(0) =~= table.entries@);
    while i < table.entries.len()
        invariant
            i <= table.entries@.len(),
            item_raw(table.entries@, uid) == item_raw(table.entries@.skip(i as int), uid),
        decreases table.entries.len() - i,
    {
        let (k, v) = table.entries[i];
        assert(table.entries@.skip(i as int).drop_first() =~= table.entries@.skip(i + 1));
        if k == uid {
            if v != 0 && v < 0xFFFF {
                return Some(v);
            } else {
                return None;
            }
        }
        i = i + 1;
    }
    None
}

fn slot_raw_exec(e: &Equipment, slot: ProstheticSlot) -> (r: u32)
    ensures
        r == slot_raw(*e, slot),
{
    match slot {
        ProstheticSlot::S0 => e.slot0,
        ProstheticSlot::S1 => e.slot2,
        ProstheticSlot::S2 => e.slot4,
    }
}

fn get_tool_exec(e: &Equipment, slot: ProstheticSlot) -> (r: Option<u32>)
    ensures
        r == get_tool(*e, slot),
{
    let raw = slot_raw_exec(e, slot);
    if raw != 256 && raw != 0 {
        Some(raw)
    } else {
        None
    }
}

fn write_slot_exec(e: &mut Equipment, w: &mut Vec<SlotWrite>, slot: ProstheticSlot, item: u32)
    ensures
        *final(e) == with_slot(*old(e), slot, item),
        final(w)@ == old(w)@.push(SlotWrite { slot_index: slot_index(slot), item }),
{
    match slot {
        ProstheticSlot::S0 => e.slot0 = item,
        ProstheticSlot::S1 => e.slot2 = item,
        ProstheticSlot::S2 => e.slot4 = item,
    }
    w.push(SlotWrite { slot_index: slot.as_slot_index(), item });
}

fn locate_exec(e: &Equipment, table: &ItemTable, uid: u32) -> (r: Option<ProstheticSlot>)
    ensures
        r == locate(*e, table.entries@, uid),
{
    match item_id_exec(table, uid) {
        None => None,
        Some(id) => if e.slot0 == id {
            Some(ProstheticSlot::S0)
        } else if e.slot2 == id {
            Some(ProstheticSlot::S1)
        } else if e.slot4 == id {
            Some(ProstheticSlot::S2)
        } else {
            None
        },
    }
}

fn revert_ejection_exec(s: ModState, e: &mut Equipment, w: &mut Vec<SlotWrite>) -> (r: ModState)
    ensures
        world(r, *final(e), final(w)@) == revert_ejection(world(s, *old(e), old(w)@)),
{
    if let Some((tool, orig)) = s.ejection {
        if e.active != orig {
            write_slot_exec(e, w, orig, tool);
            return ModState { ejection: None, ..s };
        }
    }
    s
}

fn equip_tool_uid(
    s: ModState,
    e: &mut Equipment,
    w: &mut Vec<SlotWrite>,
    table: &ItemTable,
    uid: u32,
) -> (r: (bool, ModState))
    ensures
        (r.0, world(r.1, *final(e), final(w)@)) == equip_tool(
            world(s, *old(e), old(w)@),
            table.entries@,
            uid,
        ),
{
    let s = revert_ejection_exec(s, e, w);
    let active = e.active;
    let want = match item_id_exec(table, uid) {
        None => {
            return (false, s);
        },
        Some(want) => want,
    };
    if get_tool_exec(e, active) == Some(want) {
        return (true, s);
    }
    match locate_exec(e, table, uid) {
        Some(other) => {
            let displaced = get_tool_exec(e, active);
            write_slot_exec(e, w, active, want);
            if let Some(d) = displaced {
                write_slot_exec(e, w, other, d);
            }
            (true, s)
        },
        None => {
            let prev = get_tool_exec(e, active);
            write_slot_exec(e, w, active, want);
            match prev {
                Some(t) => if s.ejection.is_none() {
                    (true, ModState { ejection: Some((t, active)), ..s })
                } else {
                    (true, s)
                },
                None => (true, s),
            }
        },
    }
}

fn return_to_default_tool(
    s: ModState,
    e: &mut Equipment,
    w: &mut Vec<SlotWrite>,
    config: &Config,
    table: &ItemTable,
) -> (r: ModState)
    ensures
        world(r, *final(e), final(w)@) == return_to_default(
            world(s, *old(e), old(w)@),
            config@,
            table.entries@,
        ),
{
    let s1 = ModState {
        return_default_left: 0,
        tool_lock_left: 0,
        hold_tool_tail: None,
        tool_min_use: 0,
        ..s
    };
    match config.tool_on_t {
        None => s1,
        Some(uid) => {
            let (ok, s2) = equip_tool_uid(s1, e, w, table, uid);
            if ok {
                ModState { cur_tool: Some(uid), prosthetic_delay: PROSTHETIC_SUPRESSION_DURATION, ..s2 }
            } else {
                s2
            }
        },
    }
}

fn lock_frames_exec(budget: &FrameBudget, cur: Option<u32>) -> (r: u16)
    ensures
        r == lock_frames(*budget, cur),
{
    let u = match cur {
        None => {
            return budget.tool_lock;
        },
        Some(u) => u,
    };
    let mut i: usize = 0;
    assert(budget.tool_locks@.skip(0) =~= budget.tool_locks@);
    while i < budget.tool_locks.len()
        invariant
            i <= budget.tool_locks@.len(),
            cur == Some(u),
            lock_lookup(budget.tool_locks@, u) == lock_lookup(budget.tool_locks@.skip(i as int), u),
        decreases budget.tool_locks.len() - i,
    {
        let (k, f) = budget.tool_locks[i];
        assert(budget.tool_locks@.skip(i as int).drop_first() =~= budget.tool_locks@.skip(i + 1));
        assert(budget.tool_locks@.skip(i as int)[0] == budget.tool_locks@[i as int]);
        if k == u {
            return f;
        }
        i = i + 1;
    }
    budget.tool_lock
}

fn refresh_tool_lock(s: ModState, budget: &FrameBudget) -> (r: ModState)
    ensures
        r == refresh_lock(s, *budget),
{
    let f = lock_frames_exec(budget, s.cur_tool);
    let start: u16 = if f == 0 {
        1
    } else {
        f
    };
    ModState { tool_lock_left: start, return_default_left: 0, ..s }
}

fn rehit_exec(s: ModState, budget: &FrameBudget, tail: ToolTail) -> (r: ModState)
    ensures
        r == rehit(s, *budget, tail),
{
    let s1 = refresh_tool_lock(s, budget);
    ModState {
        tool_min_use: if s1.tool_min_use >= TOOL_MIN_USE {
            s1.tool_min_use
        } else {
            TOOL_MIN_USE
        },
        hold_tool_tail: Some(tail),
        prosthetic_delay: 0,
        tool_first: None,
        ..s1
    }
}

fn arm_tool_exec(
    s: ModState,
    e: &mut Equipment,
    w: &mut Vec<SlotWrite>,
    table: &ItemTable,
    budget: &FrameBudget,
    uid: u32,
    tail: ToolTail,
) -> (r: ModState)
    ensures
        world(r, *final(e), final(w)@) == arm_tool(
            world(s, *old(e), old(w)@),
            table.entries@,
            *budget,
            uid,
            tail,
        ),
{
    reveal(arm_tool);
    let refused = match s.cur_tool {
        Some(cur) => s.tool_lock_left > 0 && cur != uid,
        None => false,
    };
    if refused {
        return s;
    }
    let (ok, s2) = equip_tool_uid(s, e, w, table, uid);
    if ok {
        let s3 = refresh_tool_lock(
            ModState {
                cur_tool: Some(uid),
                hold_tool_tail: Some(tail),
                tool_min_use: TOOL_MIN_USE,
                prosthetic_delay: PROSTHETIC_SUPRESSION_DURATION,
                ..s2
            },
            budget,
        );
        ModState { tool_first: None, tool_first_age: 0, ..s3 }
    } else {
        s2
    }
}

fn push_tool_first(s: ModState, t: ToolFirst) -> (r: ModState)
    ensures
        r == push_first(s, t),
{
    ModState { tool_first: Some(t), tool_first_age: 0, ..s }
}

fn edge_up_exec(s: ModState, held: bool) -> (r: ModState)
    ensures
        r == edge_up(s, held),
{
    reveal(edge_up);
    let s1 = if held && !s.key_up {
        push_tool_first(s, ToolFirst::Up)
    } else {
        s
    };
    ModState { key_up: held, ..s1 }
}

fn edge_right_exec(s: ModState, held: bool) -> (r: ModState)
    ensures
        r == edge_right(s, held),
{
    reveal(edge_right);
    let s1 = if held && !s.key_right {
        push_tool_first(s, ToolFirst::Right)
    } else {
        s
    };
    ModState { key_right: held, ..s1 }
}

fn edge_down_exec(s: ModState, held: bool) -> (r: ModState)
    ensures
        r == edge_down(s, held),
{
    reveal(edge_down);
    let s1 = if held && !s.key_down {
        push_tool_first(s, ToolFirst::Down)
    } else {
        s
    };
    ModState { key_down: held, ..s1 }
}

fn edge_left_exec(s: ModState, held: bool) -> (r: ModState)
    ensures
        r == edge_left(s, held),
{
    reveal(edge_left);
    let s1 = if held && !s.key_left {
        push_tool_first(s, ToolFirst::Left)
    } else {
        s
    };
    ModState { key_left: held, ..s1 }
}

fn edge_block_exec(s: ModState, held: bool) -> (r: ModState)
    ensures
        r == edge_block(s, held),
{
    reveal(edge_block);
    let s1 = if held && !s.tool_block_down {
        push_tool_first(s, ToolFirst::Block)
    } else {
        s
    };
    ModState { tool_block_down: held, ..s1 }
}

fn edge_attack_exec(s: ModState, held: bool) -> (r: ModState)
    ensures
        r == edge_attack(s, held),
{
    reveal(edge_attack);
    let s1 = if held && !s.tool_attack_down {
        push_tool_first(s, ToolFirst::Attack)
    } else {
        s
    };
    ModState { tool_attack_down: held, ..s1 }
}

fn edge_interact_exec(s: ModState, held: bool) -> (r: ModState)
    ensures
        r == edge_interact(s, held),
{
    reveal(edge_interact);
    let s1 = if held && !s.tool_interact_down {
        push_tool_first(s, ToolFirst::Interact)
    } else {
        s
    };
    ModState { tool_interact_down: held, ..s1 }
}

fn first_edges_exec(s: ModState, d: &Directions, blocking: bool, attacking: bool, interacting: bool) -> (r: ModState)
    ensures
        r == first_edges(s, *d, blocking, attacking, interacting),
{
    let s = edge_up_exec(s, d.up);
    let s = edge_right_exec(s, d.right);
    let s = edge_down_exec(s, d.down);
    let s = edge_left_exec(s, d.left);
    let s = edge_block_exec(s, blocking);
    let s = edge_attack_exec(s, attacking);
    edge_interact_exec(s, interacting)
}

fn age_first_exec(s: ModState) -> (r: ModState)
    ensures
        r == age_first(s),
{
    if s.tool_first.is_some() {
        let a: u16 = if s.tool_first_age < 0xFFFF {
            s.tool_first_age + 1
        } else {
            0xFFFF
        };
        if a >= TOOL_FIRST_MAX_AGE {
            ModState { tool_first: None, tool_first_age: 0, ..s }
        } else {
            ModState { tool_first_age: a, ..s }
        }
    } else {
        s
    }
}

fn tool_bind_exec(config: &Config, first: ToolFirst, tail: ToolTail) -> (r: Option<u32>)
    ensures
        r == tool_bind(config@, first, tail),
{
    config.tool(ToolCombo { first, tail })
}

fn switch_phase_exec(
    s: ModState,
    e: &mut Equipment,
    w: &mut Vec<SlotWrite>,
    config: &Config,
    table: &ItemTable,
    budget: &FrameBudget,
    switch_down: bool,
) -> (r: ModState)
    ensures
        world(r, *final(e), final(w)@) == switch_phase(
            world(s, *old(e), old(w)@),
            config@,
            table.entries@,
            *budget,
            switch_down,
        ),
{
    reveal(switch_phase);
    let rising = switch_down && !s.switch_down_last;
    let s0 = ModState { switch_down_last: switch_down, ..s };
    if rising {
        if s0.tool_lock_left > 0 {
            rehit_exec(s0, budget, ToolTail::Switch)
        } else {
            match s0.tool_first {
                Some(f) => match tool_bind_exec(config, f, ToolTail::Switch) {
                    Some(uid) => arm_tool_exec(s0, e, w, table, budget, uid, ToolTail::Switch),
                    None => push_tool_first(s0, ToolFirst::Switch),
                },
                None => match config.tool_on_q {
                    Some(uid) => arm_tool_exec(s0, e, w, table, budget, uid, ToolTail::Switch),
                    None => push_tool_first(s0, ToolFirst::Switch),
                },
            }
        }
    } else {
        s0
    }
}

fn use_phase_exec(
    s: ModState,
    e: &mut Equipment,
    w: &mut Vec<SlotWrite>,
    config: &Config,
    table: &ItemTable,
    budget: &FrameBudget,
    used_now: bool,
) -> (r: ModState)
    ensures
        world(r, *final(e), final(w)@) == use_phase(
            world(s, *old(e), old(w)@),
            config@,
            table.entries@,
            *budget,
            used_now,
        ),
{
    reveal(use_phase);
    if !used_now {
        s
    } else if s.tool_lock_left > 0 {
        rehit_exec(s, budget, ToolTail::Use)
    } else {
        match s.tool_first {
            Some(f) => match tool_bind_exec(config, f, ToolTail::Use) {
                Some(uid) => arm_tool_exec(s, e, w, table, budget, uid, ToolTail::Use),
                None => ModState { tool_first: None, ..s },
            },
            None => match config.tool_on_t {
                Some(uid) => arm_tool_exec(s, e, w, table, budget, uid, ToolTail::Use),
                None => s,
            },
        }
    }
}

fn sustain_phase_exec(s: ModState, switch_down: bool, using: bool, used_now: bool) -> (r: ModState)
    ensures
        r == sustain_phase(s, switch_down, using, used_now),
{
    if s.hold_tool_tail.is_some() || s.tool_min_use > 0 {
        let held = match s.hold_tool_tail {
            Some(ToolTail::Switch) => switch_down,
            Some(ToolTail::Use) => using || used_now,
            None => false,
        };
        if s.prosthetic_delay > 0 || held || s.tool_min_use > 0 {
            ModState { return_default_left: 0, ..s }
        } else {
            ModState { hold_tool_tail: None, ..s }
        }
    } else {
        s
    }
}

fn lock_phase_exec(
    s: ModState,
    e: &mut Equipment,
    w: &mut Vec<SlotWrite>,
    config: &Config,
    table: &ItemTable,
    budget: &FrameBudget,
) -> (r: ModState)
    ensures
        world(r, *final(e), final(w)@) == lock_phase(
            world(s, *old(e), old(w)@),
            config@,
            table.entries@,
            *budget,
        ),
{
    reveal(lock_phase);
    if s.tool_lock_left > 0 && s.hold_tool_tail.is_some() {
        ModState { return_default_left: 0, ..s }
    } else if s.tool_lock_left > 0 {
        let s1 = ModState { tool_lock_left: s.tool_lock_left - 1, return_default_left: 0, ..s };
        if s1.tool_lock_left == 0 && s1.tool_min_use == 0 {
            let is_default = match config.tool_on_t {
                Some(t) => match s1.cur_tool {
                    Some(c) => c == t,
                    None => false,
                },
                None => false,
            };
            if !is_default {
                ModState { return_default_left: budget.return_delay, ..s1 }
            } else {
                s1
            }
        } else {
            s1
        }
    } else if s.return_default_left > 0 {
        let s1 = ModState { return_default_left: s.return_default_left - 1, ..s };
        if s1.return_default_left == 0 {
            return_to_default_tool(s1, e, w, config, table)
        } else {
            s1
        }
    } else {
        s
    }
}

fn clear_art_fire_exec(s: ModState) -> (r: ModState)
    ensures
        r == clear_art_fire(s),
{
    ModState {
        hold_for_attack: None,
        art_block_inject_left: 0,
        art_attack_latched: false,
        pending_rl_attack: false,
        art_tap_frames: 0,
        ..s
    }
}

fn arm_combo_fire_exec(s: ModState, hold: ArtToken, held: bool) -> (r: ModState)
    ensures
        r == arm_combo_fire(s, hold, held),
{
    ModState {
        hold_for_attack: Some(hold),
        art_block_inject_left: 0,
        art_attack_latched: false,
        art_tap_frames: if held {
            0
        } else {
            ART_TAP_FRAMES
        },
        ..s
    }
}

fn art_fire_busy_exec(s: &ModState) -> (r: bool)
    ensures
        r == art_fire_busy(*s),
{
    s.hold_for_attack.is_some() || s.pending_rl_attack || s.attack_delay > 0 || s.art_block_inject_left
        > 0 || s.art_tap_frames > 0
}

fn try_art_exec(s: ModState, e: &Equipment, w: &mut Vec<SlotWrite>, table: &ItemTable, d: u32) -> (r: (bool, ModState))
    ensures
        match try_art(world(s, *e, old(w)@), table.entries@, d) {
            Some(wd) => r.0 && wd == world(r.1, *e, final(w)@),
            None => !r.0 && r.1 == s && final(w)@ == old(w)@,
        },
{
    if s.cur_art == Some(d) {
        return (true, s);
    }
    match item_id_exec(table, d) {
        Some(id) => {
            w.push(SlotWrite { slot_index: COMBAT_ART_SLOT, item: id });
            (true, ModState { cur_art: Some(d), attack_delay: ATTACK_SUPRESSION_DURATION, ..s })
        },
        None => (false, s),
    }
}

fn art_fallback_exec(uid: u32) -> (r: Option<u32>)
    ensures
        r == art_fallback(uid),
{
    if uid == ICHIMONJI_DOUBLE {
        Some(ICHIMONJI)
    } else if uid == PRAYING_STRIKES_EXORCISM {
        Some(PRAYING_STRIKES)
    } else if uid == HIGH_MONK {
        Some(SENPO_LEAPING_KICKS)
    } else if uid == SHADOWFALL {
        Some(SHADOWRUSH)
    } else if uid == EMPOWERED_MORTAL_DRAW {
        Some(MORTAL_DRAW)
    } else {
        None
    }
}

fn equip_art_exec(s: ModState, e: &Equipment, w: &mut Vec<SlotWrite>, table: &ItemTable, d: u32) -> (r: ModState)
    ensures
        world(r, *e, final(w)@) == equip_art(world(s, *e, old(w)@), table.entries@, d),
{
    let (ok, s1) = try_art_exec(s, e, w, table, d);
    if ok {
        return s1;
    }
    match art_fallback_exec(d) {
        Some(f) => {
            let (_, s2) = try_art_exec(s1, e, w, table, f);
            s2
        },
        None => s1,
    }
}

fn abort_phase_exec(s: ModState, r: &ComboReading, jumping: bool, dodging: bool) -> (out: ModState)
    ensures
        out == abort_phase(s, *r, jumping, dodging),
{
    if jumping || dodging {
        ModState { queued_art: None, ..clear_art_fire_exec(s) }
    } else {
        match s.hold_for_attack {
            Some(t) => if !token_held_exec(r, t) && s.art_tap_frames == 0 {
                clear_art_fire_exec(s)
            } else {
                s
            },
            None => s,
        }
    }
}

fn swapout_phase_exec(s: ModState, attacking: bool) -> (r: ModState)
    ensures
        r == swapout_phase(s, attacking),
{
    if s.swapout_value != 0 && (!attacking || s.swapout_running) {
        ModState { swapout_value: s.swapout_value - 1, swapout_running: true, ..s }
    } else {
        s
    }
}

#[verifier::rlimit(40)]
fn select_art_exec(s: ModState, config: &Config, r: &ComboReading) -> (out: (ModState, Option<u32>, bool, bool))
    ensures
        (ArtChoice { s: out.0, desired: out.1, combo_fired: out.2, cleared: out.3 }) == select_art(s, config@, *r),
{
    match r.completed {
        Some(combo) => match (config.art(combo), combo.second()) {
            (Some(uid), Some(hold)) => if art_fire_busy_exec(&s) {
                (ModState { queued_art: Some((uid, hold)), ..s }, None, false, true)
            } else {
                let held = token_held_exec(r, hold);
                (ModState { queued_art: None, ..arm_combo_fire_exec(s, hold, held) }, Some(uid), true, true)
            },
            _ => (s, None, false, false),
        },
        None => if !art_fire_busy_exec(&s) {
            match s.queued_art {
                Some((uid, hold)) => {
                    let held = token_held_exec(r, hold);
                    (arm_combo_fire_exec(ModState { queued_art: None, ..s }, hold, held), Some(uid), true, false)
                },
                None => (s, None, false, false),
            }
        } else {
            (s, None, false, false)
        },
    }
}

fn bare_block_exec(
    c: (ModState, Option<u32>, bool, bool),
    config: &Config,
    r: &ComboReading,
    blocked_now: bool,
) -> (out: (ModState, Option<u32>, bool, bool))
    ensures
        (ArtChoice { s: out.0, desired: out.1, combo_fired: out.2, cleared: out.3 }) == bare_block(
            ArtChoice { s: c.0, desired: c.1, combo_fired: c.2, cleared: c.3 },
            config@,
            *r,
            blocked_now,
        ),
{
    if c.1.is_some() {
        c
    } else if !blocked_now || c.0.swapout_value != 0 || c.2 {
        c
    } else if r.awaiting_second && !c.3 {
        c
    } else {
        (c.0, config.art(ArtCombo::empty()), c.2, true)
    }
}

fn swapout_cooldown_exec(cur: Option<u32>, budget: &FrameBudget) -> (r: u16)
    ensures
        r == swapout_cooldown(cur, *budget),
{
    match cur {
        None => budget.swapout_none,
        Some(u) => if u == ASHINA_CROSS {
            budget.swapout_ashina_cross
        } else if u == ONE_MIND {
            budget.swapout_one_mind
        } else if u == SAKURA_DANCE {
            budget.swapout_sakura_dance
        } else {
            budget.swapout_other
        },
    }
}

fn swapout_reset_exec(s: ModState, performed_art: bool, combo_fired: bool, budget: &FrameBudget) -> (r: ModState)
    ensures
        r == swapout_reset(s, performed_art, combo_fired, *budget),
{
    if performed_art || (combo_fired && s.swapout_value == 0) {
        ModState { swapout_value: swapout_cooldown_exec(s.cur_art, budget), swapout_running: false, ..s }
    } else {
        s
    }
}

fn is_sheathed_exec(cur: Option<u32>) -> (r: bool)
    ensures
        r == is_sheathed(cur),
{
    match cur {
        Some(u) => u == ASHINA_CROSS || u == ONE_MIND,
        None => false,
    }
}

fn legacy_injection_exec(
    s: ModState,
    act: u64,
    combo_fired: bool,
    jumping: bool,
    dodging: bool,
    attacking: bool,
    blocking: bool,
) -> (r: (ModState, u64))
    ensures
        r == legacy_injection(s, act, combo_fired, jumping, dodging, attacking, blocking),
{
    reveal(legacy_injection);
    if combo_fired {
        (s, act)
    } else if s.injected_blocks >= 1 {
        if jumping || dodging {
            (ModState { injected_blocks: 0, ..s }, act)
        } else if is_sheathed_exec(s.cur_art) {
            if attacking && !blocking {
                (s, act | BLOCK)
            } else {
                (ModState { injected_blocks: 0, ..s }, act)
            }
        } else if s.injected_blocks < BLOCK_INJECTION_DURATION {
            (ModState { injected_blocks: s.injected_blocks + 1, ..s }, act | BLOCK)
        } else {
            (s, act)
        }
    } else {
        (s, act)
    }
}

fn suppression_exec(
    s: ModState,
    act: u64,
    used_now: bool,
    blocked_now: bool,
    combo_fired: bool,
    using: bool,
) -> (r: (ModState, u64))
    ensures
        r == suppression(s, act, used_now, blocked_now, combo_fired, using),
{
    reveal(suppression);
    let d1 = if used_now {
        true
    } else {
        s.disable_block
    };
    let d2 = if blocked_now || combo_fired || !using {
        false
    } else {
        d1
    };
    (ModState { disable_block: d2, ..s }, if d2 {
        act & !BLOCK
    } else {
        act
    })
}

fn attack_delay_phase_exec(s: ModState, act: u64) -> (r: (ModState, u64))
    ensures
        r == attack_delay_phase(s, act),
{
    reveal(attack_delay_phase);
    if s.attack_delay > 0 {
        (ModState { attack_delay: s.attack_delay - 1, ..s }, act & !ATTACK)
    } else {
        (s, act)
    }
}

fn prime_phase_exec(s: ModState) -> (r: ModState)
    ensures
        r == prime_phase(s),
{
    reveal(prime_phase);
    if s.attack_delay == 0 && s.pending_rl_attack {
        ModState { pending_rl_attack: false, art_block_inject_left: ART_BLOCK_INJECTION_DURATION, ..s }
    } else {
        s
    }
}

fn fire_phase_exec(s: ModState, act: u64, r: &ComboReading) -> (out: (ModState, u64))
    ensures
        out == fire_phase(s, act, *r),
{
    reveal(fire_phase);
    if s.attack_delay != 0 {
        return (s, act);
    }
    match s.hold_for_attack {
        Some(t) => {
            let held = token_held_exec(r, t);
            let tapping = s.art_tap_frames > 0;
            if held || tapping {
                let (s1, a1) = if s.art_block_inject_left > 0 {
                    (
                        ModState { art_block_inject_left: s.art_block_inject_left - 1, ..s },
                        (act | BLOCK) & !ATTACK,
                    )
                } else if !s.art_attack_latched {
                    (ModState { art_attack_latched: true, ..s }, (act | ATTACK) | BLOCK)
                } else {
                    (s, act | ATTACK)
                };
                if tapping && !held {
                    let s2 = ModState { art_tap_frames: s1.art_tap_frames - 1, ..s1 };
                    if s2.art_tap_frames == 0 {
                        (clear_art_fire_exec(s2), a1)
                    } else {
                        (s2, a1)
                    }
                } else {
                    (s1, a1)
                }
            } else {
                (s, act)
            }
        },
        None => (s, act),
    }
}

fn use_inject_phase_exec(s: ModState, act: u64) -> (r: (ModState, u64))
    ensures
        r == use_inject_phase(s, act),
{
    reveal(use_inject_phase);
    if s.prosthetic_delay != 0 {
        (ModState { prosthetic_delay: s.prosthetic_delay - 1, ..s }, act & !USE_PROSTHETIC)
    } else if s.hold_tool_tail.is_some() || s.tool_min_use > 0 {
        (ModState {
            tool_min_use: if s.tool_min_use > 0 {
                s.tool_min_use - 1
            } else {
                0
            },
            ..s
        }, act | USE_PROSTHETIC)
    } else {
        (s, act)
    }
}
/// The keys of a frame (exec).
pub struct Keys {
    pub attacking: bool,
    pub blocking: bool,
    pub interacting: bool,
    pub using: bool,
    pub jumping: bool,
    pub dodging: bool,
    pub attacked_now: bool,
    pub blocked_now: bool,
    pub used_now: bool,
}

pub open spec fn keys_view(k: Keys) -> FrameKeys {
    FrameKeys {
        attacking: k.attacking,
        blocking: k.blocking,
        interacting: k.interacting,
        using: k.using,
        jumping: k.jumping,
        dodging: k.dodging,
        attacked_now: k.attacked_now,
        blocked_now: k.blocked_now,
        used_now: k.used_now,
    }
}

fn keys_exec(snap: u64, s0: &ModState) -> (k: Keys)
    ensures
        keys_view(k) == keys_of(snap, *s0),
{
    let attacking = snap & ATTACK != 0;
    let blocking = snap & BLOCK != 0;
    let using = snap & USE_PROSTHETIC != 0;
    Keys {
        attacking,
        blocking,
        interacting: snap & INTERACT != 0,
        using,
        jumping: snap & JUMP != 0,
        dodging: snap & DODGE != 0,
        attacked_now: !s0.attacking_last_frame && attacking,
        blocked_now: !s0.blocking_last_frame && blocking,
        used_now: !s0.using_tool_last_frame && using,
    }
}

fn art_half_exec(
    s: ModState,
    k: &Keys,
    e: &Equipment,
    w: &mut Vec<SlotWrite>,
    config: &Config,
    items: &ItemTable,
    budget: &FrameBudget,
    reading: &ComboReading,
) -> (out: (ModState, bool, bool))
    ensures
        (world(out.0, *e, final(w)@), out.1, out.2) == art_half(
            world(s, *e, old(w)@),
            keys_view(*k),
            config@,
            items.entries@,
            *budget,
            *reading,
        ),
{
    proof {
        reveal(art_half);
    }
    let s3 = abort_phase_exec(s, reading, k.jumping, k.dodging);
    let s4 = swapout_phase_exec(s3, k.attacking);
    let c5 = select_art_exec(s4, config, reading);
    let (s6, desired, combo_fired, cleared) = bare_block_exec(c5, config, reading, k.blocked_now);
    let s7 = swapout_reset_exec(s6, k.blocking && k.attacked_now, combo_fired, budget);
    let s8 = match desired {
        Some(dd) => equip_art_exec(s7, e, w, items, dd),
        None => s7,
    };
    let s9 = if combo_fired {
        ModState { pending_rl_attack: true, ..s8 }
    } else {
        s8
    };
    (s9, combo_fired, cleared)
}

fn inject_half_exec(s9: ModState, act: u64, k: &Keys, combo_fired: bool, reading: &ComboReading) -> (out: (ModState, u64))
    ensures
        out == inject_half(s9, act, keys_view(*k), combo_fired, *reading),
{
    proof {
        reveal(inject_half);
    }
    let (s10, a10) = legacy_injection_exec(s9, act, combo_fired, k.jumping, k.dodging, k.attacking, k.blocking);
    let (s11, a11) = suppression_exec(s10, a10, k.used_now, k.blocked_now, combo_fired, k.using);
    let (s12, a12) = attack_delay_phase_exec(s11, a11);
    let s13 = prime_phase_exec(s12);
    let (s14, a14) = fire_phase_exec(s13, a12, reading);
    let (s15, a15) = use_inject_phase_exec(s14, a14);
    (ModState {
        attacking_last_frame: k.attacking,
        blocking_last_frame: k.blocking,
        interacting_last_frame: k.interacting,
        using_tool_last_frame: k.using,
        ..s15
    }, a15)
}

/// `u` is the UID of some entry.
pub open spec fn bound_value(s: Seq<(u8, u32)>, u: u32) -> bool {
    exists|i: int| 0 <= i < s.len() && #[trigger] s[i].1 == u
}

/// The UIDs whose item ids a frame may look up: every bound art and tool, the
/// bare-`t` tool, and the basic arts that upgraded ones fall back to.
pub open spec fn looked_up(cfg: ConfigModel, u: u32) -> bool {
    ||| bound_value(cfg.arts, u)
    ||| bound_value(cfg.tools, u)
    ||| cfg.tool_on_t == Some(u)
    ||| cfg.tool_on_q == Some(u)
    ||| u == ICHIMONJI || u == PRAYING_STRIKES || u == SENPO_LEAPING_KICKS || u == SHADOWRUSH || u
        == MORTAL_DRAW
}

fn push_values(r: &mut Vec<u32>, s: &Vec<(u8, u32)>)
    ensures
        final(r)@.len() == old(r)@.len() + s@.len(),
        forall|u: u32| #[trigger] final(r)@.contains(u) <==> (old(r)@.contains(u) || bound_value(s@, u)),
{
    let ghost r0 = r@;
    let mut i: usize = 0;
    while i < s.len()
        invariant
            i <= s.len(),
            r@ == r0 + s@.take(i as int).map_values(|e: (u8, u32)| e.1),
        decreases s.len() - i,
    {
        r.push(s[i].1);
        i = i + 1;
        assert(s@.take(i as int).map_values(|e: (u8, u32)| e.1) =~= s@.take(i - 1).map_values(
            |e: (u8, u32)| e.1,
        ).push(s@[i - 1].1));
    }
    assert(s@.take(i as int) =~= s@);
    assert forall|u: u32| #[trigger] r@.contains(u) <==> (r0.contains(u) || bound_value(s@, u)) by {
        if r@.contains(u) {
            let j = choose|j: int| 0 <= j < r@.len() && r@[j] == u;
            if j >= r0.len() {
                assert(s@[j - r0.len()].1 == u);
            }
        }
        if bound_value(s@, u) {
            let j = choose|j: int| 0 <= j < s@.len() && #[trigger] s@[j].1 == u;
            assert(r@[r0.len() as int + j] == u);
        }
        if r0.contains(u) {
            let j = choose|j: int| 0 <= j < r0.len() && r0[j] == u;
            assert(r@[j] == u);
        }
    }
}

impl Mod {
    /// The mod before its first frame, with the given cfg.
    pub fn new(config: Config) -> (r: Mod)
        ensures
            r.cfg() == config@,
            r.st() == initial_state(),
    {
        Mod {
            config,
            state: ModState {
                cur_art: None,
                blocking_last_frame: false,
                attacking_last_frame: false,
                interacting_last_frame: false,
                using_tool_last_frame: false,
                swapout_value: 0,
                swapout_running: false,
                attack_delay: 0,
                prosthetic_delay: 0,
                injected_blocks: 0,
                disable_block: false,
                pending_rl_attack: false,
                hold_for_attack: None,
                art_block_inject_left: 0,
                art_attack_latched: false,
                queued_art: None,
                art_tap_frames: 0,
                tool_first: None,
                tool_first_age: 0,
                hold_tool_tail: None,
                tool_min_use: 0,
                cur_tool: None,
                return_default_left: 0,
                tool_lock_left: 0,
                switch_down_last: false,
                tools_inited: false,
                key_up: false,
                key_right: false,
                key_down: false,
                key_left: false,
                tool_block_down: false,
                tool_attack_down: false,
                tool_interact_down: false,
                ejection: None,
            },
        }
    }

    /// The UIDs whose item ids a frame may look up; the host fills the
    /// `ItemTable` of each frame with them.
    pub fn item_uids(&self) -> (r: Vec<u32>)
        ensures
            forall|u: u32| #[trigger] r@.contains(u) <==> looked_up(self.cfg(), u),
    {
        let mut r: Vec<u32> = Vec::new();
        push_values(&mut r, &self.config.arts.entries);
        let ghost ra = r@;
        assert forall|u: u32| #[trigger] ra.contains(u) <==> bound_value(self.cfg().arts, u) by {
            assert(!Seq::<u32>::empty().contains(u));
        }
        push_values(&mut r, &self.config.tools.entries);
        let ghost rb = r@;
        if let Some(t) = self.config.tool_on_t {
            r.push(t);
        }
        let ghost r1 = r@;
        assert forall|u: u32| #[trigger] r1.contains(u) <==> (bound_value(self.cfg().arts, u) || bound_value(self.cfg().tools, u) || self.cfg().tool_on_t == Some(u)) by {
            if rb.contains(u) {
                assert(ra.contains(u) || bound_value(self.cfg().tools, u));
            }
            if let Some(t) = self.cfg().tool_on_t {
                assert(r1 == rb.push(t));
                if r1.contains(u) {
                    let j = choose|j: int| 0 <= j < r1.len() && r1[j] == u;
                    if j < rb.len() {
                        assert(rb[j] == u);
                        assert(rb.contains(u));
                    }
                }
                if rb.contains(u) {
                    let j = choose|j: int| 0 <= j < rb.len() && rb[j] == u;
                    assert(r1[j] == u);
                }
                if u == t {
                    assert(r1[rb.len() as int] == u);
                }
            }
        }
        if let Some(q) = self.config.tool_on_q {
            r.push(q);
        }
        let ghost r2 = r@;
        assert forall|u: u32| #[trigger] r2.contains(u) <==> (r1.contains(u) || self.cfg().tool_on_q == Some(u)) by {
            if let Some(q) = self.cfg().tool_on_q {
                assert(r2 == r1.push(q));
                if r2.contains(u) {
                    let j = choose|j: int| 0 <= j < r2.len() && r2[j] == u;
                    if j < r1.len() {
                        assert(r1[j] == u);
                    }
                }
                if r1.contains(u) {
                    let j = choose|j: int| 0 <= j < r1.len() && r1[j] == u;
                    assert(r2[j] == u);
                }
                if u == q {
                    assert(r2[r1.len() as int] == u);
                }
            }
        }
        r.push(ICHIMONJI);
        r.push(PRAYING_STRIKES);
        r.push(SENPO_LEAPING_KICKS);
        r.push(SHADOWRUSH);
        r.push(MORTAL_DRAW);
        assert forall|u: u32| #[trigger] r@.contains(u) <==> looked_up(self.cfg(), u) by {
            if r@.contains(u) {
                let j = choose|j: int| 0 <= j < r@.len() && r@[j] == u;
                if j < r2.len() {
                    assert(r2[j] == u);
                    assert(r2.contains(u));
                }
            }
            if u == ICHIMONJI {
                assert(r@[r2.len() as int] == u);
            }
            if u == PRAYING_STRIKES {
                assert(r@[r2.len() as int + 1] == u);
            }
            if u == SENPO_LEAPING_KICKS {
                assert(r@[r2.len() as int + 2] == u);
            }
            if u == SHADOWRUSH {
                assert(r@[r2.len() as int + 3] == u);
            }
            if u == MORTAL_DRAW {
                assert(r@[r2.len() as int + 4] == u);
            }
            if r2.contains(u) {
                let j = choose|j: int| 0 <= j < r2.len() && r2[j] == u;
                assert(r@[j] == u);
            }
        }
        r
    }

    /// The cfg the mod runs with.
    pub fn config(&self) -> (r: &Config)
        ensures
            r@ == self.cfg(),
    {
        &self.config
    }

    /// The mod's memory between frames.
    pub fn state(&self) -> (r: ModState)
        ensures
            r == self.st(),
    {
        self.state
    }

    /// One frame: decide the prosthetic and combat-art moves from the game's
    /// action bits, the combo window, the prosthetic slots and the inventory.
    /// `acts` and `equipment` are updated in place; the slot writes to perform
    /// (in order) and whether to clear the combo window are returned.
    pub fn process_input(
        &mut self,
        acts: &mut Actions,
        d: &Directions,
        reading: &ComboReading,
        equipment: &mut Equipment,
        items: &ItemTable,
        budget: &FrameBudget,
    ) -> (r: FrameEffects)
        ensures
            final(self).cfg() == old(self).cfg(),
            step(
                old(self).st(),
                old(self).cfg(),
                items.entries@,
                *budget,
                *d,
                *reading,
                *old(acts),
                *old(equipment),
            ) == (StepOut {
                s: final(self).st(),
                acts: *final(acts),
                e: *final(equipment),
                w: r.writes@,
                clear_combo: r.clear_combo,
            }),
    {
        proof {
            reveal(front_half);
        }
        let snap = acts.action;
        let k = keys_exec(snap, &self.state);
        let mut w: Vec<SlotWrite> = Vec::new();
        let s0 = self.state;
        let s1 = if !s0.tools_inited {
            let si = ModState { tools_inited: true, ..s0 };
            if self.config.tool_on_t.is_some() {
                return_to_default_tool(si, equipment, &mut w, &self.config, items)
            } else {
                si
            }
        } else {
            s0
        };
        self.state = s1;
        self.handle_prosthetic_input(
            acts,
            equipment,
            &mut w,
            items,
            budget,
            d,
            k.blocking,
            k.attacking,
            k.interacting,
            k.using,
            k.used_now,
        );
        let (s9, combo_fired, cleared) = art_half_exec(self.state, &k, equipment, &mut w, &self.config, items, budget, reading);
        let (s16, a16) = inject_half_exec(s9, acts.action, &k, combo_fired, reading);
        self.state = s16;
        acts.action = a16;
        FrameEffects { writes: w, clear_combo: cleared }
    }

    /// The prosthetic part of a frame.
    fn handle_prosthetic_input(
        &mut self,
        acts: &mut Actions,
        e: &mut Equipment,
        w: &mut Vec<SlotWrite>,
        table: &ItemTable,
        budget: &FrameBudget,
        d: &Directions,
        blocking: bool,
        attacking: bool,
        interacting: bool,
        using: bool,
        used_now: bool,
    )
        ensures
            final(self).config == old(self).config,
            (world(final(self).state, *final(e), final(w)@), *final(acts)) == prosthetic_phase(
                world(old(self).state, *old(e), old(w)@),
                *old(acts),
                old(self).config@,
                table.entries@,
                *budget,
                *d,
                blocking,
                attacking,
                interacting,
                using,
                used_now,
            ),
    {
        let s = first_edges_exec(self.state, d, blocking, attacking, interacting);
        let s = age_first_exec(s);
        let switch_down = acts.action & SWITCH_PROSTHETIC != 0;
        if switch_down {
            acts.action = acts.action & !SWITCH_PROSTHETIC;
            acts.action_b = acts.action_b & !SWITCH_PROSTHETIC;
            acts.action_c = acts.action_c & !SWITCH_PROSTHETIC;
        }
        let s = switch_phase_exec(s, e, w, &self.config, table, budget, switch_down);
        let s = use_phase_exec(s, e, w, &self.config, table, budget, used_now);
        let s = sustain_phase_exec(s, switch_down, using, used_now);
        let s = lock_phase_exec(s, e, w, &self.config, table, budget);
        self.state = s;
    }
}

/// The mod: its cfg and its memory between frames.
pub struct Mod {
    config: Config,
    state: ModState,
}

impl Mod {
    /// The cfg the mod runs with.
    pub closed spec fn cfg(&self) -> ConfigModel {
        self.config@
    }

    /// What the mod remembers between frames.
    pub closed spec fn st(&self) -> ModState {
        self.state
    }
}

} // verus!

verus! {

//----------------------------------------------------------------------------
//  Laws
//----------------------------------------------------------------------------

/// The combat-art fields of two states agree.
pub open spec fn art_fields_eq(a: ModState, b: ModState) -> bool {
    &&& a.cur_art == b.cur_art
    &&& a.attack_delay == b.attack_delay
    &&& a.pending_rl_attack == b.pending_rl_attack
    &&& a.hold_for_attack == b.hold_for_attack
    &&& a.art_block_inject_left == b.art_block_inject_left
    &&& a.art_attack_latched == b.art_attack_latched
    &&& a.queued_art == b.queued_art
    &&& a.art_tap_frames == b.art_tap_frames
    &&& a.swapout_value == b.swapout_value
    &&& a.swapout_running == b.swapout_running
    &&& a.injected_blocks == b.injected_blocks
    &&& a.disable_block == b.disable_block
}

/// The prosthetic fields of two states agree.
pub open spec fn tool_fields_eq(a: ModState, b: ModState) -> bool {
    &&& a.cur_tool == b.cur_tool
    &&& a.tool_lock_left == b.tool_lock_left
    &&& a.return_default_left == b.return_default_left
    &&& a.hold_tool_tail == b.hold_tool_tail
    &&& a.tools_inited == b.tools_inited
}

proof fn lemma_equip_tool_art(wd: World, table: Seq<(u32, u32)>, uid: u32)
    ensures
        art_fields_eq(equip_tool(wd, table, uid).1.s, wd.s),
        tool_fields_eq(equip_tool(wd, table, uid).1.s, wd.s),
        equip_tool(wd, table, uid).1.s.tool_min_use == wd.s.tool_min_use,
        equip_tool(wd, table, uid).1.s.prosthetic_delay == wd.s.prosthetic_delay,
        item_id(table, uid) is Some ==> equip_tool(wd, table, uid).0,
{
}

proof fn lemma_return_art(wd: World, cfg: ConfigModel, table: Seq<(u32, u32)>)
    ensures
        art_fields_eq(return_to_default(wd, cfg, table).s, wd.s),
        return_to_default(wd, cfg, table).s.tools_inited == wd.s.tools_inited,
        return_to_default(wd, cfg, table).s.tool_lock_left == 0,
        return_to_default(wd, cfg, table).s.return_default_left == 0,
        return_to_default(wd, cfg, table).s.hold_tool_tail is None,
        return_to_default(wd, cfg, table).s.tool_min_use == 0,
        cfg.tool_on_t is Some && item_id(table, cfg.tool_on_t->0) is Some ==> return_to_default(wd, cfg, table).s.cur_tool == cfg.tool_on_t,
        cfg.tool_on_t is None ==> return_to_default(wd, cfg, table).s.cur_tool == wd.s.cur_tool,
{
    let w1 = World {
        s: ModState {
            return_default_left: 0,
            tool_lock_left: 0,
            hold_tool_tail: None,
            tool_min_use: 0,
            ..wd.s
        },
        ..wd
    };
    if let Some(uid) = cfg.tool_on_t {
        lemma_equip_tool_art(w1, table, uid);
    }
}

proof fn lemma_arm_art(wd: World, table: Seq<(u32, u32)>, budget: FrameBudget, uid: u32, tail: ToolTail)
    ensures
        art_fields_eq(arm_tool(wd, table, budget, uid, tail).s, wd.s),
        arm_tool(wd, table, budget, uid, tail).s.tools_inited == wd.s.tools_inited,
        lock_refuses(wd.s, uid) ==> arm_tool(wd, table, budget, uid, tail).s == wd.s,
{
    reveal(arm_tool);
    lemma_equip_tool_art(wd, table, uid);
}

/// The fields the first-key tracking leaves alone agree.
pub open spec fn core_eq(a: ModState, b: ModState) -> bool {
    &&& art_fields_eq(a, b)
    &&& tool_fields_eq(a, b)
    &&& a.tool_min_use == b.tool_min_use
    &&& a.prosthetic_delay == b.prosthetic_delay
    &&& a.switch_down_last == b.switch_down_last
}

proof fn lemma_edge_up(s: ModState, h: bool)
    ensures
        core_eq(edge_up(s, h), s),
{
    reveal(edge_up);
}

proof fn lemma_edge_right(s: ModState, h: bool)
    ensures
        core_eq(edge_right(s, h), s),
{
    reveal(edge_right);
}

proof fn lemma_edge_down(s: ModState, h: bool)
    ensures
        core_eq(edge_down(s, h), s),
{
    reveal(edge_down);
}

proof fn lemma_edge_left(s: ModState, h: bool)
    ensures
        core_eq(edge_left(s, h), s),
{
    reveal(edge_left);
}

proof fn lemma_edge_block(s: ModState, h: bool)
    ensures
        core_eq(edge_block(s, h), s),
{
    reveal(edge_block);
}

proof fn lemma_edge_attack(s: ModState, h: bool)
    ensures
        core_eq(edge_attack(s, h), s),
{
    reveal(edge_attack);
}

proof fn lemma_edge_interact(s: ModState, h: bool)
    ensures
        core_eq(edge_interact(s, h), s),
{
    reveal(edge_interact);
}

proof fn lemma_edges_keep(s: ModState, d: Directions, b: bool, a: bool, i: bool)
    ensures
        core_eq(age_first(first_edges(s, d, b, a, i)), s),
{
    let s1 = edge_up(s, d.up);
    lemma_edge_up(s, d.up);
    let s2 = edge_right(s1, d.right);
    lemma_edge_right(s1, d.right);
    let s3 = edge_down(s2, d.down);
    lemma_edge_down(s2, d.down);
    let s4 = edge_left(s3, d.left);
    lemma_edge_left(s3, d.left);
    let s5 = edge_block(s4, b);
    lemma_edge_block(s4, b);
    let s6 = edge_attack(s5, a);
    lemma_edge_attack(s5, a);
    let s7 = edge_interact(s6, i);
    lemma_edge_interact(s6, i);
    assert(first_edges(s, d, b, a, i) == s7);
    assert(core_eq(age_first(s7), s7));
}

proof fn lemma_switch_art(wd: World, cfg: ConfigModel, table: Seq<(u32, u32)>, budget: FrameBudget, sd: bool)
    ensures
        art_fields_eq(switch_phase(wd, cfg, table, budget, sd).s, wd.s),
        switch_phase(wd, cfg, table, budget, sd).s.tools_inited == wd.s.tools_inited,
        !sd ==> tool_fields_eq(switch_phase(wd, cfg, table, budget, sd).s, wd.s)
            && switch_phase(wd, cfg, table, budget, sd).s.tool_min_use == wd.s.tool_min_use
            && switch_phase(wd, cfg, table, budget, sd).s.prosthetic_delay == wd.s.prosthetic_delay,
        wd.s.tool_lock_left > 0 ==> switch_phase(wd, cfg, table, budget, sd).s.cur_tool == wd.s.cur_tool,
{
    reveal(switch_phase);
    let w0 = World { s: ModState { switch_down_last: sd, ..wd.s }, ..wd };
    if sd && !wd.s.switch_down_last && wd.s.tool_lock_left == 0 {
        match w0.s.tool_first {
            Some(f) => if let Some(uid) = tool_bind(cfg, f, ToolTail::Switch) {
                lemma_arm_art(w0, table, budget, uid, ToolTail::Switch);
            },
            None => if let Some(uid) = cfg.tool_on_q {
                lemma_arm_art(w0, table, budget, uid, ToolTail::Switch);
            },
        }
    }
}

proof fn lemma_use_art(wd: World, cfg: ConfigModel, table: Seq<(u32, u32)>, budget: FrameBudget, used: bool)
    ensures
        art_fields_eq(use_phase(wd, cfg, table, budget, used).s, wd.s),
        use_phase(wd, cfg, table, budget, used).s.tools_inited == wd.s.tools_inited,
        !used ==> use_phase(wd, cfg, table, budget, used) == wd,
        wd.s.tool_lock_left > 0 ==> use_phase(wd, cfg, table, budget, used).s.cur_tool == wd.s.cur_tool,
{
    reveal(use_phase);
    if used && wd.s.tool_lock_left == 0 {
        match wd.s.tool_first {
            Some(f) => if let Some(uid) = tool_bind(cfg, f, ToolTail::Use) {
                lemma_arm_art(wd, table, budget, uid, ToolTail::Use);
            },
            None => if let Some(uid) = cfg.tool_on_t {
                lemma_arm_art(wd, table, budget, uid, ToolTail::Use);
            },
        }
    }
}

proof fn lemma_lock_art(wd: World, cfg: ConfigModel, table: Seq<(u32, u32)>, budget: FrameBudget)
    ensures
        art_fields_eq(lock_phase(wd, cfg, table, budget).s, wd.s),
        lock_phase(wd, cfg, table, budget).s.tools_inited == wd.s.tools_inited,
        wd.s.tool_lock_left > 0 ==> lock_phase(wd, cfg, table, budget).s.cur_tool == wd.s.cur_tool,
        wd.s.tool_lock_left == 0 && wd.s.return_default_left == 0 ==> lock_phase(wd, cfg, table, budget) == wd,
{
    reveal(lock_phase);
    if wd.s.tool_lock_left == 0 && wd.s.return_default_left > 0 {
        let s1 = ModState { return_default_left: (wd.s.return_default_left - 1) as u16, ..wd.s };
        lemma_return_art(World { s: s1, ..wd }, cfg, table);
    }
}

proof fn lemma_prosthetic_art(
    wd: World,
    acts: Actions,
    cfg: ConfigModel,
    table: Seq<(u32, u32)>,
    budget: FrameBudget,
    d: Directions,
    b: bool,
    a: bool,
    i: bool,
    u: bool,
    un: bool,
)
    ensures
        art_fields_eq(prosthetic_phase(wd, acts, cfg, table, budget, d, b, a, i, u, un).0.s, wd.s),
        prosthetic_phase(wd, acts, cfg, table, budget, d, b, a, i, u, un).0.s.tools_inited == wd.s.tools_inited,
{
    let s1 = age_first(first_edges(wd.s, d, b, a, i));
    lemma_edges_keep(wd.s, d, b, a, i);
    let sd = acts.action & SWITCH_PROSTHETIC != 0;
    let w2 = switch_phase(World { s: s1, ..wd }, cfg, table, budget, sd);
    lemma_switch_art(World { s: s1, ..wd }, cfg, table, budget, sd);
    let w3 = use_phase(w2, cfg, table, budget, un);
    lemma_use_art(w2, cfg, table, budget, un);
    let w4 = World { s: sustain_phase(w3.s, sd, u, un), ..w3 };
    lemma_lock_art(w4, cfg, table, budget);
}

proof fn lemma_front_art(
    s0: ModState,
    k: FrameKeys,
    cfg: ConfigModel,
    table: Seq<(u32, u32)>,
    budget: FrameBudget,
    d: Directions,
    acts0: Actions,
    e0: Equipment,
)
    ensures
        art_fields_eq(front_half(s0, k, cfg, table, budget, d, acts0, e0).0.s, s0),
        front_half(s0, k, cfg, table, budget, d, acts0, e0).0.s.tools_inited,
{
    reveal(front_half);
    let w0 = world(s0, e0, Seq::empty());
    let w1 = if !s0.tools_inited {
        let wi = World { s: ModState { tools_inited: true, ..s0 }, ..w0 };
        if cfg.tool_on_t is Some {
            lemma_return_art(wi, cfg, table);
            return_to_default(wi, cfg, table)
        } else {
            wi
        }
    } else {
        w0
    };
    lemma_prosthetic_art(w1, acts0, cfg, table, budget, d, k.blocking, k.attacking, k.interacting, k.using, k.used_now);
}

proof fn lemma_art_half_keeps_tool(w2: World, k: FrameKeys, cfg: ConfigModel, table: Seq<(u32, u32)>, budget: FrameBudget, r: ComboReading)
    ensures
        tool_fields_eq(art_half(w2, k, cfg, table, budget, r).0.s, w2.s),
        art_half(w2, k, cfg, table, budget, r).0.s.prosthetic_delay == w2.s.prosthetic_delay,
        art_half(w2, k, cfg, table, budget, r).0.s.tool_min_use == w2.s.tool_min_use,
{
    reveal(art_half);
}

/// The fields the injection part keeps.
pub open spec fn inject_kept(a: ModState, b: ModState) -> bool {
    &&& tool_fields_eq(a, b)
    &&& a.cur_art == b.cur_art
    &&& a.queued_art == b.queued_art
}

/// The fields the injection part keeps, with the hold and the tap frames.
pub open spec fn inject_kept_hold(a: ModState, b: ModState) -> bool {
    &&& inject_kept(a, b)
    &&& a.hold_for_attack == b.hold_for_attack
    &&& a.art_tap_frames == b.art_tap_frames
}

proof fn lemma_legacy_kept(s: ModState, act: u64, cf: bool, j: bool, d: bool, a: bool, b: bool)
    ensures
        inject_kept_hold(legacy_injection(s, act, cf, j, d, a, b).0, s),
{
    reveal(legacy_injection);
}

proof fn lemma_suppression_kept(s: ModState, act: u64, un: bool, bn: bool, cf: bool, u: bool)
    ensures
        inject_kept_hold(suppression(s, act, un, bn, cf, u).0, s),
{
    reveal(suppression);
}

proof fn lemma_delay_prime_kept(s: ModState, act: u64)
    ensures
        inject_kept_hold(attack_delay_phase(s, act).0, s),
        inject_kept_hold(prime_phase(s), s),
{
    reveal(attack_delay_phase);
    reveal(prime_phase);
}

proof fn lemma_fire_kept(s: ModState, act: u64, r: ComboReading)
    ensures
        inject_kept(fire_phase(s, act, r).0, s),
        s.art_tap_frames != 1 ==> fire_phase(s, act, r).0.hold_for_attack == s.hold_for_attack,
        s.hold_for_attack is None ==> fire_phase(s, act, r).0.hold_for_attack is None,
{
    reveal(fire_phase);
}

proof fn lemma_use_inject_kept(s: ModState, act: u64)
    ensures
        inject_kept(use_inject_phase(s, act).0, s),
        use_inject_phase(s, act).0.hold_for_attack == s.hold_for_attack,
{
    reveal(use_inject_phase);
}

proof fn lemma_inject_keeps(s9: ModState, act: u64, k: FrameKeys, cf: bool, r: ComboReading)
    ensures
        tool_fields_eq(inject_half(s9, act, k, cf, r).0, s9),
        inject_half(s9, act, k, cf, r).0.cur_art == s9.cur_art,
        inject_half(s9, act, k, cf, r).0.queued_art == s9.queued_art,
        s9.art_tap_frames != 1 ==> inject_half(s9, act, k, cf, r).0.hold_for_attack == s9.hold_for_attack,
        s9.hold_for_attack is None ==> inject_half(s9, act, k, cf, r).0.hold_for_attack is None,
{
    reveal(inject_half);
    let (s10, a10) = legacy_injection(s9, act, cf, k.jumping, k.dodging, k.attacking, k.blocking);
    lemma_legacy_kept(s9, act, cf, k.jumping, k.dodging, k.attacking, k.blocking);
    let (s11, a11) = suppression(s10, a10, k.used_now, k.blocked_now, cf, k.using);
    lemma_suppression_kept(s10, a10, k.used_now, k.blocked_now, cf, k.using);
    let (s12, a12) = attack_delay_phase(s11, a11);
    lemma_delay_prime_kept(s11, a11);
    let s13 = prime_phase(s12);
    lemma_delay_prime_kept(s12, a12);
    let (s14, a14) = fire_phase(s13, a12, r);
    lemma_fire_kept(s13, a12, r);
    let (s15, a15) = use_inject_phase(s14, a14);
    lemma_use_inject_kept(s14, a14);
}

proof fn lemma_use_inject_bits(s: ModState, act: u64)
    ensures
        use_inject_phase(s, act).0.prosthetic_delay > 0 ==> use_inject_phase(s, act).1 & USE_PROSTHETIC == 0,
        use_inject_phase(s, act).1 & ATTACK == act & ATTACK,
        use_inject_phase(s, act).0.attack_delay == s.attack_delay,
{
    reveal(use_inject_phase);
    lemma_use_bits(act);
}

proof fn lemma_delay_bits(s: ModState, act: u64, r: ComboReading)
    ensures
        attack_delay_phase(s, act).0.attack_delay > 0 ==> ({
            let (s12, a12) = attack_delay_phase(s, act);
            let s13 = prime_phase(s12);
            fire_phase(s13, a12, r) == (s13, a12) && a12 & ATTACK == 0 && s13.attack_delay == s12.attack_delay
        }),
{
    reveal(attack_delay_phase);
    reveal(prime_phase);
    reveal(fire_phase);
    lemma_attack_bits(act);
}

proof fn lemma_inject_bits(s9: ModState, act: u64, k: FrameKeys, cf: bool, r: ComboReading)
    ensures
        inject_half(s9, act, k, cf, r).0.prosthetic_delay > 0 ==> inject_half(s9, act, k, cf, r).1 & USE_PROSTHETIC == 0,
        inject_half(s9, act, k, cf, r).0.attack_delay > 0 ==> inject_half(s9, act, k, cf, r).1 & ATTACK == 0,
{
    reveal(inject_half);
    let (s10, a10) = legacy_injection(s9, act, cf, k.jumping, k.dodging, k.attacking, k.blocking);
    let (s11, a11) = suppression(s10, a10, k.used_now, k.blocked_now, cf, k.using);
    let (s12, a12) = attack_delay_phase(s11, a11);
    let s13 = prime_phase(s12);
    let (s14, a14) = fire_phase(s13, a12, r);
    lemma_use_inject_bits(s14, a14);
    lemma_delay_bits(s11, a11, r);
    if s12.attack_delay > 0 {
        assert(s14.attack_delay == s12.attack_delay);
    } else {
        assert(s13.attack_delay == 0) by {
            reveal(prime_phase);
        }
        assert(s14.attack_delay == 0) by {
            reveal(fire_phase);
        }
    }
}

proof fn lemma_use_bits(x: u64)
    ensures
        (x & !USE_PROSTHETIC) & USE_PROSTHETIC == 0,
        (x | USE_PROSTHETIC) & ATTACK == x & ATTACK,
        (x & !USE_PROSTHETIC) & ATTACK == x & ATTACK,
{
    assert((x & !0x40040002u64) & 0x40040002u64 == 0) by (bit_vector);
    assert((x | 0x40040002u64) & 0x1u64 == x & 0x1u64) by (bit_vector);
    assert((x & !0x40040002u64) & 0x1u64 == x & 0x1u64) by (bit_vector);
}

proof fn lemma_attack_bits(x: u64)
    ensures
        (x & !ATTACK) & ATTACK == 0,
{
    assert((x & !0x1u64) & 0x1u64 == 0) by (bit_vector);
}

/// No USE input goes out while a freshly equipped prosthetic settles.
pub proof fn law_use_suppressed_while_settling(
    s0: ModState,
    cfg: ConfigModel,
    table: Seq<(u32, u32)>,
    budget: FrameBudget,
    d: Directions,
    r: ComboReading,
    acts0: Actions,
    e0: Equipment,
)
    ensures
        step(s0, cfg, table, budget, d, r, acts0, e0).s.prosthetic_delay > 0 ==> step(
            s0,
            cfg,
            table,
            budget,
            d,
            r,
            acts0,
            e0,
        ).acts.action & USE_PROSTHETIC == 0,
{
    let k = keys_of(acts0.action, s0);
    let (w2, acts1) = front_half(s0, k, cfg, table, budget, d, acts0, e0);
    let (w9, cf, cl) = art_half(w2, k, cfg, table, budget, r);
    lemma_inject_bits(w9.s, acts1.action, k, cf, r);
}

/// No ATTACK input goes out while a freshly swapped combat art settles.
pub proof fn law_attack_suppressed_after_swap(
    s0: ModState,
    cfg: ConfigModel,
    table: Seq<(u32, u32)>,
    budget: FrameBudget,
    d: Directions,
    r: ComboReading,
    acts0: Actions,
    e0: Equipment,
)
    ensures
        step(s0, cfg, table, budget, d, r, acts0, e0).s.attack_delay > 0 ==> step(
            s0,
            cfg,
            table,
            budget,
            d,
            r,
            acts0,
            e0,
        ).acts.action & ATTACK == 0,
{
    let k = keys_of(acts0.action, s0);
    let (w2, acts1) = front_half(s0, k, cfg, table, budget, d, acts0, e0);
    let (w9, cf, cl) = art_half(w2, k, cfg, table, budget, r);
    lemma_inject_bits(w9.s, acts1.action, k, cf, r);
}

/// Jump or dodge aborts the sustained art fire and drops the queued art, when
/// no new combo completes in that frame.
pub proof fn law_jump_or_dodge_aborts_art(
    s0: ModState,
    cfg: ConfigModel,
    table: Seq<(u32, u32)>,
    budget: FrameBudget,
    d: Directions,
    r: ComboReading,
    acts0: Actions,
    e0: Equipment,
)
    requires
        acts0.action & JUMP != 0 || acts0.action & DODGE != 0,
        r.completed is None,
    ensures
        step(s0, cfg, table, budget, d, r, acts0, e0).s.hold_for_attack is None,
        step(s0, cfg, table, budget, d, r, acts0, e0).s.queued_art is None,
{
    let k = keys_of(acts0.action, s0);
    let (w2, acts1) = front_half(s0, k, cfg, table, budget, d, acts0, e0);
    let (w9, cf, cl) = art_half(w2, k, cfg, table, budget, r);
    assert(w9.s.hold_for_attack is None && w9.s.queued_art is None) by {
        reveal(art_half);
    }
    lemma_inject_keeps(w9.s, acts1.action, k, cf, r);
}

/// A combo completed while an art is still being fired with its key held is
/// queued (the newest one wins) instead of swapping the art.
pub proof fn law_combo_queued_while_firing(
    s0: ModState,
    cfg: ConfigModel,
    table: Seq<(u32, u32)>,
    budget: FrameBudget,
    d: Directions,
    r: ComboReading,
    acts0: Actions,
    e0: Equipment,
    combo: ArtCombo,
    uid: u32,
    t: ArtToken,
)
    requires
        !(acts0.action & JUMP != 0 || acts0.action & DODGE != 0),
        s0.hold_for_attack == Some(t),
        token_held(r, t),
        r.completed == Some(combo),
        bind_get(cfg.arts, art_code(combo)) == Some(uid),
        combo is Pair,
    ensures
        step(s0, cfg, table, budget, d, r, acts0, e0).s.queued_art == Some((uid, art_second(combo)->0)),
        step(s0, cfg, table, budget, d, r, acts0, e0).clear_combo,
{
    let k = keys_of(acts0.action, s0);
    let (w2, acts1) = front_half(s0, k, cfg, table, budget, d, acts0, e0);
    lemma_front_art(s0, k, cfg, table, budget, d, acts0, e0);
    let (w9, cf, cl) = art_half(w2, k, cfg, table, budget, r);
    assert(w9.s.queued_art == Some((uid, art_second(combo)->0)) && cl) by {
        reveal(art_half);
    }
    lemma_inject_keeps(w9.s, acts1.action, k, cf, r);
}

/// A combo completed when no art is being fired equips its art (when the
/// inventory has it) and starts firing it while its second key is held.
pub proof fn law_combo_fires_art(
    s0: ModState,
    cfg: ConfigModel,
    table: Seq<(u32, u32)>,
    budget: FrameBudget,
    d: Directions,
    r: ComboReading,
    acts0: Actions,
    e0: Equipment,
    combo: ArtCombo,
    uid: u32,
)
    requires
        !art_fire_busy(s0),
        r.completed == Some(combo),
        bind_get(cfg.arts, art_code(combo)) == Some(uid),
        combo is Pair,
        item_id(table, uid) is Some,
    ensures
        step(s0, cfg, table, budget, d, r, acts0, e0).s.cur_art == Some(uid),
        step(s0, cfg, table, budget, d, r, acts0, e0).s.hold_for_attack == art_second(combo),
        step(s0, cfg, table, budget, d, r, acts0, e0).clear_combo,
{
    let k = keys_of(acts0.action, s0);
    let (w2, acts1) = front_half(s0, k, cfg, table, budget, d, acts0, e0);
    lemma_front_art(s0, k, cfg, table, budget, d, acts0, e0);
    let (w9, cf, cl) = art_half(w2, k, cfg, table, budget, r);
    assert(w9.s.cur_art == Some(uid) && w9.s.hold_for_attack == art_second(combo) && cl
        && w9.s.art_tap_frames != 1) by {
        reveal(art_half);
        assert(!art_fire_busy(w2.s));
        let s3 = abort_phase(w2.s, r, k.jumping, k.dodging);
        assert(!art_fire_busy(s3));
        let s4 = swapout_phase(s3, k.attacking);
        let c5 = select_art(s4, cfg, r);
        assert(c5.desired == Some(uid) && c5.combo_fired && c5.cleared);
    }
    lemma_inject_keeps(w9.s, acts1.action, k, cf, r);
}

/// On the first frame the bare-`t` default tool is equipped, when the
/// inventory has it and no prosthetic key goes down in that frame.
pub proof fn law_first_frame_equips_default(
    s0: ModState,
    cfg: ConfigModel,
    table: Seq<(u32, u32)>,
    budget: FrameBudget,
    d: Directions,
    r: ComboReading,
    acts0: Actions,
    e0: Equipment,
    t: u32,
)
    requires
        !s0.tools_inited,
        cfg.tool_on_t == Some(t),
        item_id(table, t) is Some,
        acts0.action & SWITCH_PROSTHETIC == 0,
        acts0.action & USE_PROSTHETIC == 0,
    ensures
        step(s0, cfg, table, budget, d, r, acts0, e0).s.cur_tool == Some(t),
        step(s0, cfg, table, budget, d, r, acts0, e0).s.tools_inited,
{
    let k = keys_of(acts0.action, s0);
    let (w2, acts1) = front_half(s0, k, cfg, table, budget, d, acts0, e0);
    assert(w2.s.cur_tool == Some(t) && w2.s.tools_inited) by {
        reveal(front_half);
        let w0 = world(s0, e0, Seq::empty());
        let wi = World { s: ModState { tools_inited: true, ..s0 }, ..w0 };
        let w1 = return_to_default(wi, cfg, table);
        lemma_return_art(wi, cfg, table);
        let s1 = age_first(first_edges(w1.s, d, k.blocking, k.attacking, k.interacting));
        lemma_edges_keep(w1.s, d, k.blocking, k.attacking, k.interacting);
        let wa = switch_phase(World { s: s1, ..w1 }, cfg, table, budget, false);
        lemma_switch_art(World { s: s1, ..w1 }, cfg, table, budget, false);
        let wb = use_phase(wa, cfg, table, budget, false);
        lemma_use_art(wa, cfg, table, budget, false);
        let wc = World { s: sustain_phase(wb.s, false, false, false), ..wb };
        lemma_lock_art(wc, cfg, table, budget);
    }
    let (w9, cf, cl) = art_half(w2, k, cfg, table, budget, r);
    lemma_art_half_keeps_tool(w2, k, cfg, table, budget, r);
    lemma_inject_keeps(w9.s, acts1.action, k, cf, r);
}

/// When the tool lock runs out with the tail released and a tool other than
/// the bare-`t` default armed, the countdown back to the default starts.
pub proof fn law_lock_end_starts_return(
    s0: ModState,
    cfg: ConfigModel,
    table: Seq<(u32, u32)>,
    budget: FrameBudget,
    d: Directions,
    r: ComboReading,
    acts0: Actions,
    e0: Equipment,
)
    requires
        s0.tools_inited,
        s0.tool_lock_left == 1,
        s0.hold_tool_tail is None,
        s0.tool_min_use == 0,
        cfg.tool_on_t is Some,
        s0.cur_tool != cfg.tool_on_t,
        acts0.action & SWITCH_PROSTHETIC == 0,
        acts0.action & USE_PROSTHETIC == 0,
    ensures
        step(s0, cfg, table, budget, d, r, acts0, e0).s.return_default_left == budget.return_delay,
{
    let k = keys_of(acts0.action, s0);
    let (w2, acts1) = front_half(s0, k, cfg, table, budget, d, acts0, e0);
    assert(w2.s.return_default_left == budget.return_delay) by {
        reveal(front_half);
        let w1 = world(s0, e0, Seq::empty());
        let s1 = age_first(first_edges(w1.s, d, k.blocking, k.attacking, k.interacting));
        lemma_edges_keep(w1.s, d, k.blocking, k.attacking, k.interacting);
        let wa = switch_phase(World { s: s1, ..w1 }, cfg, table, budget, false);
        lemma_switch_art(World { s: s1, ..w1 }, cfg, table, budget, false);
        let wb = use_phase(wa, cfg, table, budget, false);
        lemma_use_art(wa, cfg, table, budget, false);
        reveal(lock_phase);
    }
    let (w9, cf, cl) = art_half(w2, k, cfg, table, budget, r);
    lemma_art_half_keeps_tool(w2, k, cfg, table, budget, r);
    lemma_inject_keeps(w9.s, acts1.action, k, cf, r);
}

/// With no first key going down, no first key is pending after the edges.
proof fn lemma_no_edges_first(s: ModState, d: Directions)
    requires
        s.tool_first is None,
        !d.up && !d.right && !d.down && !d.left,
    ensures
        age_first(first_edges(s, d, false, false, false)).tool_first is None,
{
    reveal(edge_up);
    reveal(edge_right);
    reveal(edge_down);
    reveal(edge_left);
    reveal(edge_block);
    reveal(edge_attack);
    reveal(edge_interact);
}

/// A held tail keeps its lock: while the armed tool's tail key stays held
/// (and neither `t` nor `q` is newly pressed), the lock does not count down.
pub proof fn law_held_tail_keeps_lock(
    s0: ModState,
    cfg: ConfigModel,
    table: Seq<(u32, u32)>,
    budget: FrameBudget,
    d: Directions,
    r: ComboReading,
    acts0: Actions,
    e0: Equipment,
)
    requires
        s0.tools_inited,
        s0.tool_lock_left > 0,
        s0.using_tool_last_frame || acts0.action & USE_PROSTHETIC == 0,
        s0.switch_down_last || acts0.action & SWITCH_PROSTHETIC == 0,
        match s0.hold_tool_tail {
            Some(ToolTail::Use) => acts0.action & USE_PROSTHETIC != 0,
            Some(ToolTail::Switch) => acts0.action & SWITCH_PROSTHETIC != 0,
            None => false,
        },
    ensures
        step(s0, cfg, table, budget, d, r, acts0, e0).s.tool_lock_left == s0.tool_lock_left,
{
    let k = keys_of(acts0.action, s0);
    let (w2, acts1) = front_half(s0, k, cfg, table, budget, d, acts0, e0);
    assert(w2.s.tool_lock_left == s0.tool_lock_left) by {
        reveal(front_half);
        let w1 = world(s0, e0, Seq::empty());
        let s1 = age_first(first_edges(w1.s, d, k.blocking, k.attacking, k.interacting));
        lemma_edges_keep(w1.s, d, k.blocking, k.attacking, k.interacting);
        let sd = acts0.action & SWITCH_PROSTHETIC != 0;
        let wa = switch_phase(World { s: s1, ..w1 }, cfg, table, budget, sd);
        reveal(switch_phase);
        reveal(use_phase);
        reveal(lock_phase);
        assert(tool_fields_eq(wa.s, s0) && wa.s.tool_min_use == s0.tool_min_use
            && wa.s.prosthetic_delay == s0.prosthetic_delay);
        let wb = use_phase(wa, cfg, table, budget, k.used_now);
        assert(wb == wa);
        let wc = World { s: sustain_phase(wb.s, sd, k.using, k.used_now), ..wb };
        assert(wc.s.hold_tool_tail == s0.hold_tool_tail && wc.s.tool_lock_left == s0.tool_lock_left);
    }
    let (w9, cf, cl) = art_half(w2, k, cfg, table, budget, r);
    lemma_art_half_keeps_tool(w2, k, cfg, table, budget, r);
    lemma_inject_keeps(w9.s, acts1.action, k, cf, r);
}

proof fn lemma_switch_in_lock(wd: World, cfg: ConfigModel, table: Seq<(u32, u32)>, budget: FrameBudget, sd: bool)
    requires
        wd.s.tool_lock_left > 0,
    ensures
        switch_phase(wd, cfg, table, budget, sd).s.cur_tool == wd.s.cur_tool,
        switch_phase(wd, cfg, table, budget, sd).s.tool_lock_left > 0,
        switch_phase(wd, cfg, table, budget, sd).e == wd.e,
        switch_phase(wd, cfg, table, budget, sd).w == wd.w,
        sd && !wd.s.switch_down_last ==> switch_phase(wd, cfg, table, budget, sd).s.tool_lock_left
            == lock_start(budget, wd.s.cur_tool) && switch_phase(wd, cfg, table, budget, sd).s.hold_tool_tail is Some
            && switch_phase(wd, cfg, table, budget, sd).s.tool_min_use >= TOOL_MIN_USE,
{
    reveal(switch_phase);
}

proof fn lemma_use_in_lock(wd: World, cfg: ConfigModel, table: Seq<(u32, u32)>, budget: FrameBudget, un: bool)
    requires
        wd.s.tool_lock_left > 0,
    ensures
        use_phase(wd, cfg, table, budget, un).s.cur_tool == wd.s.cur_tool,
        use_phase(wd, cfg, table, budget, un).s.tool_lock_left > 0,
        use_phase(wd, cfg, table, budget, un).e == wd.e,
        use_phase(wd, cfg, table, budget, un).w == wd.w,
        un ==> use_phase(wd, cfg, table, budget, un).s.tool_lock_left == lock_start(budget, wd.s.cur_tool)
            && use_phase(wd, cfg, table, budget, un).s.hold_tool_tail is Some
            && use_phase(wd, cfg, table, budget, un).s.tool_min_use >= TOOL_MIN_USE,
        !un ==> use_phase(wd, cfg, table, budget, un) == wd,
{
    reveal(use_phase);
}

proof fn lemma_sustain_armed(s: ModState, sd: bool, u: bool, un: bool)
    requires
        s.hold_tool_tail is Some,
        s.tool_min_use > 0,
    ensures
        sustain_phase(s, sd, u, un).hold_tool_tail == s.hold_tool_tail,
        sustain_phase(s, sd, u, un).tool_lock_left == s.tool_lock_left,
        sustain_phase(s, sd, u, un).cur_tool == s.cur_tool,
{
}

proof fn lemma_lock_while_held(wd: World, cfg: ConfigModel, table: Seq<(u32, u32)>, budget: FrameBudget)
    requires
        wd.s.tool_lock_left > 0,
        wd.s.hold_tool_tail is Some,
    ensures
        lock_phase(wd, cfg, table, budget).s.tool_lock_left == wd.s.tool_lock_left,
        lock_phase(wd, cfg, table, budget).s.hold_tool_tail == wd.s.hold_tool_tail,
        lock_phase(wd, cfg, table, budget).s.cur_tool == wd.s.cur_tool,
{
    reveal(lock_phase);
}

proof fn lemma_repress_phase(
    wd: World,
    acts: Actions,
    cfg: ConfigModel,
    table: Seq<(u32, u32)>,
    budget: FrameBudget,
    d: Directions,
    b: bool,
    a: bool,
    i: bool,
    u: bool,
    un: bool,
)
    requires
        wd.s.tool_lock_left > 0,
        un || (acts.action & SWITCH_PROSTHETIC != 0 && !wd.s.switch_down_last),
    ensures
        prosthetic_phase(wd, acts, cfg, table, budget, d, b, a, i, u, un).0.s.cur_tool == wd.s.cur_tool,
        prosthetic_phase(wd, acts, cfg, table, budget, d, b, a, i, u, un).0.s.tool_lock_left
            == lock_start(budget, wd.s.cur_tool),
        prosthetic_phase(wd, acts, cfg, table, budget, d, b, a, i, u, un).0.s.hold_tool_tail is Some,
{
    let s1 = age_first(first_edges(wd.s, d, b, a, i));
    lemma_edges_keep(wd.s, d, b, a, i);
    let sd = acts.action & SWITCH_PROSTHETIC != 0;
    let w1 = World { s: s1, ..wd };
    let w2 = switch_phase(w1, cfg, table, budget, sd);
    lemma_switch_in_lock(w1, cfg, table, budget, sd);
    let w3 = use_phase(w2, cfg, table, budget, un);
    lemma_use_in_lock(w2, cfg, table, budget, un);
    let w4 = World { s: sustain_phase(w3.s, sd, u, un), ..w3 };
    lemma_sustain_armed(w3.s, sd, u, un);
    lemma_lock_while_held(w4, cfg, table, budget);
}

/// Pressing `t` or `q` again during a lock fires the current tool again: it
/// stays armed with its tail held, and its lock starts over.
pub proof fn law_repress_refreshes_lock(
    s0: ModState,
    cfg: ConfigModel,
    table: Seq<(u32, u32)>,
    budget: FrameBudget,
    d: Directions,
    r: ComboReading,
    acts0: Actions,
    e0: Equipment,
)
    requires
        s0.tools_inited,
        s0.tool_lock_left > 0,
        (!s0.using_tool_last_frame && acts0.action & USE_PROSTHETIC != 0) || (!s0.switch_down_last
            && acts0.action & SWITCH_PROSTHETIC != 0),
    ensures
        step(s0, cfg, table, budget, d, r, acts0, e0).s.cur_tool == s0.cur_tool,
        step(s0, cfg, table, budget, d, r, acts0, e0).s.tool_lock_left == lock_start(budget, s0.cur_tool),
        step(s0, cfg, table, budget, d, r, acts0, e0).s.hold_tool_tail is Some,
{
    let k = keys_of(acts0.action, s0);
    let (w2, acts1) = front_half(s0, k, cfg, table, budget, d, acts0, e0);
    assert(w2.s.cur_tool == s0.cur_tool && w2.s.tool_lock_left == lock_start(budget, s0.cur_tool)
        && w2.s.hold_tool_tail is Some) by {
        reveal(front_half);
        let w1 = world(s0, e0, Seq::empty());
        lemma_repress_phase(w1, acts0, cfg, table, budget, d, k.blocking, k.attacking, k.interacting, k.using, k.used_now);
    }
    let (w9, cf, cl) = art_half(w2, k, cfg, table, budget, r);
    lemma_art_half_keeps_tool(w2, k, cfg, table, budget, r);
    lemma_inject_keeps(w9.s, acts1.action, k, cf, r);
}

proof fn lemma_bare_q_phase(
    wd: World,
    acts: Actions,
    cfg: ConfigModel,
    table: Seq<(u32, u32)>,
    budget: FrameBudget,
    d: Directions,
    u: bool,
    q: u32,
)
    requires
        wd.s.tool_lock_left == 0,
        wd.s.tool_first is None,
        !d.up && !d.right && !d.down && !d.left,
        !wd.s.switch_down_last,
        acts.action & SWITCH_PROSTHETIC != 0,
        cfg.tool_on_q == Some(q),
        item_id(table, q) is Some,
    ensures
        prosthetic_phase(wd, acts, cfg, table, budget, d, false, false, false, u, false).0.s.cur_tool == Some(q),
{
    reveal(switch_phase);
    reveal(use_phase);
    reveal(arm_tool);
    let s1 = age_first(first_edges(wd.s, d, false, false, false));
    lemma_edges_keep(wd.s, d, false, false, false);
    lemma_no_edges_first(wd.s, d);
    let sd = acts.action & SWITCH_PROSTHETIC != 0;
    let w0 = World { s: ModState { switch_down_last: sd, ..s1 }, ..wd };
    lemma_equip_tool_art(w0, table, q);
    let w2 = switch_phase(World { s: s1, ..wd }, cfg, table, budget, sd);
    assert(w2 == arm_tool(w0, table, budget, q, ToolTail::Switch));
    assert(w2.s.cur_tool == Some(q) && w2.s.tool_lock_left > 0);
    let w3 = use_phase(w2, cfg, table, budget, false);
    let w4 = World { s: sustain_phase(w3.s, sd, u, false), ..w3 };
    lemma_lock_art(w4, cfg, table, budget);
}

/// A bare `q` fires the bare-`q` tool, as a bare `t` fires the default: with no
/// lock running and no combo pending, pressing `q` arms the bare-`q` tool when
/// the inventory has it.
pub proof fn law_bare_q_arms_q_tool(
    s0: ModState,
    cfg: ConfigModel,
    table: Seq<(u32, u32)>,
    budget: FrameBudget,
    d: Directions,
    r: ComboReading,
    acts0: Actions,
    e0: Equipment,
    q: u32,
)
    requires
        s0.tools_inited,
        s0.tool_lock_left == 0,
        s0.tool_first is None,
        !d.up && !d.right && !d.down && !d.left,
        acts0.action & BLOCK == 0,
        acts0.action & ATTACK == 0,
        acts0.action & INTERACT == 0,
        !s0.switch_down_last,
        acts0.action & SWITCH_PROSTHETIC != 0,
        acts0.action & USE_PROSTHETIC == 0,
        cfg.tool_on_q == Some(q),
        item_id(table, q) is Some,
    ensures
        step(s0, cfg, table, budget, d, r, acts0, e0).s.cur_tool == Some(q),
{
    let k = keys_of(acts0.action, s0);
    let (w2, acts1) = front_half(s0, k, cfg, table, budget, d, acts0, e0);
    assert(w2.s.cur_tool == Some(q)) by {
        reveal(front_half);
        let w1 = world(s0, e0, Seq::empty());
        lemma_bare_q_phase(w1, acts0, cfg, table, budget, d, k.using, q);
    }
    let (w9, cf, cl) = art_half(w2, k, cfg, table, budget, r);
    lemma_art_half_keeps_tool(w2, k, cfg, table, budget, r);
    lemma_inject_keeps(w9.s, acts1.action, k, cf, r);
}

proof fn lemma_attack_set_bits(x: u64)
    ensures
        (x | ATTACK) & ATTACK != 0,
        ((x | ATTACK) | BLOCK) & ATTACK != 0,
{
    assert((x | 0x1u64) & 0x1u64 != 0) by (bit_vector);
    assert(((x | 0x1u64) | 0x4u64) & 0x1u64 != 0) by (bit_vector);
}

proof fn lemma_inject_held_attack(s9: ModState, act: u64, k: FrameKeys, r: ComboReading, t: ArtToken)
    requires
        s9.hold_for_attack == Some(t),
        token_held(r, t),
        s9.attack_delay == 0,
        s9.art_block_inject_left == 0,
        !s9.pending_rl_attack,
    ensures
        inject_half(s9, act, k, false, r).1 & ATTACK != 0,
{
    reveal(inject_half);
    let (s10, a10) = legacy_injection(s9, act, false, k.jumping, k.dodging, k.attacking, k.blocking);
    assert(s10.hold_for_attack == Some(t) && s10.attack_delay == 0 && s10.art_block_inject_left == 0
        && !s10.pending_rl_attack) by {
        reveal(legacy_injection);
    }
    let (s11, a11) = suppression(s10, a10, k.used_now, k.blocked_now, false, k.using);
    assert(s11.hold_for_attack == Some(t) && s11.attack_delay == 0 && s11.art_block_inject_left == 0
        && !s11.pending_rl_attack) by {
        reveal(suppression);
    }
    let (s12, a12) = attack_delay_phase(s11, a11);
    assert(s12 == s11 && a12 == a11) by {
        reveal(attack_delay_phase);
    }
    let s13 = prime_phase(s12);
    assert(s13 == s12) by {
        reveal(prime_phase);
    }
    let (s14, a14) = fire_phase(s13, a12, r);
    assert(a14 & ATTACK != 0) by {
        reveal(fire_phase);
        lemma_attack_set_bits(a12);
    }
    let (s15, a15) = use_inject_phase(s14, a14);
    assert(a15 & ATTACK == a14 & ATTACK) by {
        reveal(use_inject_phase);
        lemma_use_bits(a14);
    }
}

/// Holding the last key of a fired art keeps it firing: once the art has
/// settled and been primed, every frame with its key held (and no jump,
/// dodge, new block press or new combo) sends ATTACK.
pub proof fn law_held_key_sustains_attack(
    s0: ModState,
    cfg: ConfigModel,
    table: Seq<(u32, u32)>,
    budget: FrameBudget,
    d: Directions,
    r: ComboReading,
    acts0: Actions,
    e0: Equipment,
    t: ArtToken,
)
    requires
        s0.hold_for_attack == Some(t),
        token_held(r, t),
        s0.attack_delay == 0,
        s0.art_block_inject_left == 0,
        !s0.pending_rl_attack,
        r.completed is None,
        acts0.action & JUMP == 0,
        acts0.action & DODGE == 0,
        s0.blocking_last_frame || acts0.action & BLOCK == 0,
    ensures
        step(s0, cfg, table, budget, d, r, acts0, e0).acts.action & ATTACK != 0,
{
    let k = keys_of(acts0.action, s0);
    let (w2, acts1) = front_half(s0, k, cfg, table, budget, d, acts0, e0);
    lemma_front_art(s0, k, cfg, table, budget, d, acts0, e0);
    let (w9, cf, cl) = art_half(w2, k, cfg, table, budget, r);
    assert(w9.s.hold_for_attack == Some(t) && w9.s.attack_delay == 0 && w9.s.art_block_inject_left == 0
        && !w9.s.pending_rl_attack && !cf) by {
        reveal(art_half);
    }
    lemma_inject_held_attack(w9.s, acts1.action, k, r, t);
}

proof fn lemma_inject_tap(s9: ModState, act: u64, k: FrameKeys, cf: bool, r: ComboReading)
    requires
        s9.art_tap_frames > 1,
    ensures
        inject_half(s9, act, k, cf, r).0.art_tap_frames > 0,
{
    reveal(inject_half);
    let (s10, a10) = legacy_injection(s9, act, cf, k.jumping, k.dodging, k.attacking, k.blocking);
    lemma_legacy_kept(s9, act, cf, k.jumping, k.dodging, k.attacking, k.blocking);
    let (s11, a11) = suppression(s10, a10, k.used_now, k.blocked_now, cf, k.using);
    lemma_suppression_kept(s10, a10, k.used_now, k.blocked_now, cf, k.using);
    let (s12, a12) = attack_delay_phase(s11, a11);
    lemma_delay_prime_kept(s11, a11);
    let s13 = prime_phase(s12);
    lemma_delay_prime_kept(s12, a12);
    let (s14, a14) = fire_phase(s13, a12, r);
    assert(s14.art_tap_frames > 0) by {
        reveal(fire_phase);
    }
    let (s15, a15) = use_inject_phase(s14, a14);
    assert(s15.art_tap_frames > 0) by {
        reveal(use_inject_phase);
    }
}

/// A combo queued while an art was firing fires once that art is over: when,
/// after this frame's release check, no art is being fired, and no new combo
/// completes, the queued art is fired with its second key (with tap frames
/// when that key is already up) and is equipped unless the inventory lacks it.
pub proof fn law_queued_art_fires_after_release(
    s0: ModState,
    cfg: ConfigModel,
    table: Seq<(u32, u32)>,
    budget: FrameBudget,
    d: Directions,
    r: ComboReading,
    acts0: Actions,
    e0: Equipment,
    uid: u32,
    hold: ArtToken,
)
    requires
        !art_fire_busy(abort_phase(s0, r, false, false)),
        s0.queued_art == Some((uid, hold)),
        r.completed is None,
        acts0.action & JUMP == 0,
        acts0.action & DODGE == 0,
    ensures
        step(s0, cfg, table, budget, d, r, acts0, e0).s.queued_art is None,
        step(s0, cfg, table, budget, d, r, acts0, e0).s.hold_for_attack == Some(hold),
        !token_held(r, hold) ==> step(s0, cfg, table, budget, d, r, acts0, e0).s.art_tap_frames > 0,
        s0.cur_art == Some(uid) || item_id(table, uid) is Some ==> step(
            s0,
            cfg,
            table,
            budget,
            d,
            r,
            acts0,
            e0,
        ).s.cur_art == Some(uid),
{
    let k = keys_of(acts0.action, s0);
    let (w2, acts1) = front_half(s0, k, cfg, table, budget, d, acts0, e0);
    lemma_front_art(s0, k, cfg, table, budget, d, acts0, e0);
    let (w9, cf, cl) = art_half(w2, k, cfg, table, budget, r);
    assert(w9.s.hold_for_attack == Some(hold) && w9.s.queued_art is None
        && (token_held(r, hold) ==> w9.s.art_tap_frames == 0)
        && (!token_held(r, hold) ==> w9.s.art_tap_frames == ART_TAP_FRAMES)
        && (s0.cur_art == Some(uid) || item_id(table, uid) is Some ==> w9.s.cur_art == Some(uid))) by {
        reveal(art_half);
        let s3 = abort_phase(w2.s, r, k.jumping, k.dodging);
        assert(!art_fire_busy(s3));
        let s4 = swapout_phase(s3, k.attacking);
        let c5 = select_art(s4, cfg, r);
        assert(c5.desired == Some(uid) && c5.combo_fired);
    }
    lemma_inject_keeps(w9.s, acts1.action, k, cf, r);
    if !token_held(r, hold) {
        lemma_inject_tap(w9.s, acts1.action, k, cf, r);
    }
}

proof fn lemma_release_art_half(w2: World, k: FrameKeys, cfg: ConfigModel, table: Seq<(u32, u32)>, budget: FrameBudget, r: ComboReading, t: ArtToken)
    requires
        w2.s.hold_for_attack == Some(t),
        !token_held(r, t),
        w2.s.art_tap_frames == 0,
        r.completed is None,
        w2.s.queued_art is None,
    ensures
        art_half(w2, k, cfg, table, budget, r).0.s.hold_for_attack is None,
{
    reveal(art_half);
    let s3 = abort_phase(w2.s, r, k.jumping, k.dodging);
    assert(s3.hold_for_attack is None && s3.queued_art is None);
    let s4 = swapout_phase(s3, k.attacking);
    assert(s4.hold_for_attack is None && s4.queued_art is None);
    let c5 = select_art(s4, cfg, r);
    assert(!c5.combo_fired && c5.s.hold_for_attack is None && c5.desired is None);
    let c6 = bare_block(c5, cfg, r, k.blocked_now);
    assert(!c6.combo_fired && c6.s.hold_for_attack is None);
}

/// Releasing the last key of a fired art stops it: with no tap frames left,
/// no combo completing and none queued, the frame ends with no art being fired.
pub proof fn law_release_ends_art_fire(
    s0: ModState,
    cfg: ConfigModel,
    table: Seq<(u32, u32)>,
    budget: FrameBudget,
    d: Directions,
    r: ComboReading,
    acts0: Actions,
    e0: Equipment,
    t: ArtToken,
)
    requires
        s0.hold_for_attack == Some(t),
        !token_held(r, t),
        s0.art_tap_frames == 0,
        r.completed is None,
        s0.queued_art is None,
    ensures
        step(s0, cfg, table, budget, d, r, acts0, e0).s.hold_for_attack is None,
{
    let k = keys_of(acts0.action, s0);
    let (w2, acts1) = front_half(s0, k, cfg, table, budget, d, acts0, e0);
    lemma_front_art(s0, k, cfg, table, budget, d, acts0, e0);
    let (w9, cf, cl) = art_half(w2, k, cfg, table, budget, r);
    lemma_release_art_half(w2, k, cfg, table, budget, r, t);
    lemma_inject_keeps(w9.s, acts1.action, k, cf, r);
}

//----------------------------------------------------------------------------
//  Runs of frames
//----------------------------------------------------------------------------

/// What the host hands one frame besides the state, cfg, inventory and budget.
pub struct FrameInput {
    pub d: Directions,
    pub r: ComboReading,
    pub acts: Actions,
}

/// The state and equipment after the frames `ins`, run in order from `s`, `e`.
pub open spec fn run(
    s: ModState,
    cfg: ConfigModel,
    table: Seq<(u32, u32)>,
    budget: FrameBudget,
    e: Equipment,
    ins: Seq<FrameInput>,
) -> (ModState, Equipment)
    decreases ins.len(),
{
    if ins.len() == 0 {
        (s, e)
    } else {
        let (s1, e1) = run(s, cfg, table, budget, e, ins.drop_last());
        let o = step(s1, cfg, table, budget, ins.last().d, ins.last().r, ins.last().acts, e1);
        (o.s, o.e)
    }
}

/// Neither `q` nor `t` is down in the frame.
pub open spec fn no_tool_keys(i: FrameInput) -> bool {
    i.acts.action & SWITCH_PROSTHETIC == 0 && i.acts.action & USE_PROSTHETIC == 0
}

/// On the way back to the default `dflt`: the tail is released, and either the
/// default is back with nothing counting, or another tool is in and a lock or
/// the return delay is counting.
pub open spec fn returning(s: ModState, dflt: u32) -> bool {
    &&& s.tools_inited
    &&& s.hold_tool_tail is None
    &&& s.tool_min_use == 0
    &&& (s.cur_tool == Some(dflt) && s.tool_lock_left == 0 && s.return_default_left == 0) || (s.cur_tool
        != Some(dflt) && (s.tool_lock_left > 0 || s.return_default_left > 0))
}

/// Frames left before the default is back.
pub open spec fn return_frames(s: ModState, dflt: u32, budget: FrameBudget) -> nat {
    if s.cur_tool == Some(dflt) {
        0
    } else if s.tool_lock_left > 0 {
        (s.tool_lock_left + budget.return_delay) as nat
    } else {
        s.return_default_left as nat
    }
}

proof fn lemma_lock_returning(wd: World, cfg: ConfigModel, table: Seq<(u32, u32)>, budget: FrameBudget, dflt: u32)
    requires
        returning(wd.s, dflt),
        cfg.tool_on_t == Some(dflt),
        item_id(table, dflt) is Some,
        budget.return_delay > 0,
    ensures
        returning(lock_phase(wd, cfg, table, budget).s, dflt),
        return_frames(lock_phase(wd, cfg, table, budget).s, dflt, budget) == (if return_frames(wd.s, dflt, budget) == 0 {
            0
        } else {
            return_frames(wd.s, dflt, budget) - 1
        }),
{
    reveal(lock_phase);
    if wd.s.tool_lock_left == 0 && wd.s.return_default_left > 0 {
        let s1 = ModState { return_default_left: (wd.s.return_default_left - 1) as u16, ..wd.s };
        lemma_return_art(World { s: s1, ..wd }, cfg, table);
    }
}

proof fn lemma_inject_idle_tool(s9: ModState, act: u64, k: FrameKeys, cf: bool, r: ComboReading)
    requires
        s9.hold_tool_tail is None,
        s9.tool_min_use == 0,
    ensures
        inject_half(s9, act, k, cf, r).0.tool_min_use == 0,
{
    reveal(inject_half);
    let (s10, a10) = legacy_injection(s9, act, cf, k.jumping, k.dodging, k.attacking, k.blocking);
    assert(s10.tool_min_use == 0 && s10.hold_tool_tail is None) by {
        reveal(legacy_injection);
    }
    let (s11, a11) = suppression(s10, a10, k.used_now, k.blocked_now, cf, k.using);
    assert(s11.tool_min_use == 0 && s11.hold_tool_tail is None) by {
        reveal(suppression);
    }
    let (s12, a12) = attack_delay_phase(s11, a11);
    assert(s12.tool_min_use == 0 && s12.hold_tool_tail is None) by {
        reveal(attack_delay_phase);
    }
    let s13 = prime_phase(s12);
    assert(s13.tool_min_use == 0 && s13.hold_tool_tail is None) by {
        reveal(prime_phase);
    }
    let (s14, a14) = fire_phase(s13, a12, r);
    assert(s14.tool_min_use == 0 && s14.hold_tool_tail is None) by {
        reveal(fire_phase);
    }
    reveal(use_inject_phase);
}

proof fn lemma_step_returning(
    s0: ModState,
    cfg: ConfigModel,
    table: Seq<(u32, u32)>,
    budget: FrameBudget,
    e0: Equipment,
    i: FrameInput,
    dflt: u32,
)
    requires
        returning(s0, dflt),
        cfg.tool_on_t == Some(dflt),
        item_id(table, dflt) is Some,
        budget.return_delay > 0,
        no_tool_keys(i),
    ensures
        returning(step(s0, cfg, table, budget, i.d, i.r, i.acts, e0).s, dflt),
        return_frames(step(s0, cfg, table, budget, i.d, i.r, i.acts, e0).s, dflt, budget) == (if return_frames(
            s0,
            dflt,
            budget,
        ) == 0 {
            0
        } else {
            return_frames(s0, dflt, budget) - 1
        }),
{
    let acts0 = i.acts;
    let k = keys_of(acts0.action, s0);
    let (w2, acts1) = front_half(s0, k, cfg, table, budget, i.d, acts0, e0);
    assert(returning(w2.s, dflt) && return_frames(w2.s, dflt, budget) == (if return_frames(s0, dflt, budget)
        == 0 {
        0
    } else {
        return_frames(s0, dflt, budget) - 1
    })) by {
        reveal(front_half);
        let w1 = world(s0, e0, Seq::empty());
        let s1 = age_first(first_edges(w1.s, i.d, k.blocking, k.attacking, k.interacting));
        lemma_edges_keep(w1.s, i.d, k.blocking, k.attacking, k.interacting);
        let wa = switch_phase(World { s: s1, ..w1 }, cfg, table, budget, false);
        lemma_switch_art(World { s: s1, ..w1 }, cfg, table, budget, false);
        let wb = use_phase(wa, cfg, table, budget, false);
        lemma_use_art(wa, cfg, table, budget, false);
        let wc = World { s: sustain_phase(wb.s, false, false, false), ..wb };
        assert(wc.s == wb.s);
        lemma_lock_returning(wc, cfg, table, budget, dflt);
    }
    let (w9, cf, cl) = art_half(w2, k, cfg, table, budget, i.r);
    lemma_art_half_keeps_tool(w2, k, cfg, table, budget, i.r);
    lemma_inject_keeps(w9.s, acts1.action, k, cf, i.r);
    lemma_inject_idle_tool(w9.s, acts1.action, k, cf, i.r);
}

/// Once the tail is released and a tool other than the bare-`t` default is
/// armed, frames without `q` or `t` bring the default back within the lock
/// plus the return delay: after that many frames the default is the current
/// tool (when the inventory has it).
pub proof fn law_default_returns_after_lock(
    s0: ModState,
    cfg: ConfigModel,
    table: Seq<(u32, u32)>,
    budget: FrameBudget,
    e0: Equipment,
    ins: Seq<FrameInput>,
    dflt: u32,
)
    requires
        returning(s0, dflt),
        cfg.tool_on_t == Some(dflt),
        item_id(table, dflt) is Some,
        budget.return_delay > 0,
        forall|j: int| 0 <= j < ins.len() ==> no_tool_keys(#[trigger] ins[j]),
    ensures
        returning(run(s0, cfg, table, budget, e0, ins).0, dflt),
        return_frames(run(s0, cfg, table, budget, e0, ins).0, dflt, budget) == (if ins.len() >= return_frames(
            s0,
            dflt,
            budget,
        ) {
            0
        } else {
            return_frames(s0, dflt, budget) - ins.len()
        }),
        ins.len() >= return_frames(s0, dflt, budget) ==> run(s0, cfg, table, budget, e0, ins).0.cur_tool == Some(
            dflt,
        ),
    decreases ins.len(),
{
    if ins.len() > 0 {
        let pre = ins.drop_last();
        assert forall|j: int| 0 <= j < pre.len() implies no_tool_keys(#[trigger] pre[j]) by {
            assert(pre[j] == ins[j]);
        }
        law_default_returns_after_lock(s0, cfg, table, budget, e0, pre, dflt);
        let (s1, e1) = run(s0, cfg, table, budget, e0, pre);
        assert(no_tool_keys(ins[ins.len() - 1]));
        lemma_step_returning(s1, cfg, table, budget, e1, ins.last(), dflt);
    }
}

/// When the default is the current tool, the active slot holds its item.
pub open spec fn default_in_slot(s: ModState, e: Equipment, table: Seq<(u32, u32)>, dflt: u32) -> bool {
    s.cur_tool == Some(dflt) ==> item_id(table, dflt) == Some(slot_raw(e, e.active))
}

proof fn lemma_equip_slot(wd: World, table: Seq<(u32, u32)>, uid: u32)
    requires
        item_id(table, uid) is Some,
    ensures
        item_id(table, uid) == Some(slot_raw(equip_tool(wd, table, uid).1.e, equip_tool(wd, table, uid).1.e.active)),
{
    let w1 = revert_ejection(wd);
    assert(w1.e.active == wd.e.active);
}

proof fn lemma_return_slot(wd: World, cfg: ConfigModel, table: Seq<(u32, u32)>, dflt: u32)
    requires
        cfg.tool_on_t == Some(dflt),
        item_id(table, dflt) is Some,
    ensures
        default_in_slot(return_to_default(wd, cfg, table).s, return_to_default(wd, cfg, table).e, table, dflt),
{
    let w1 = World {
        s: ModState { return_default_left: 0, tool_lock_left: 0, hold_tool_tail: None, tool_min_use: 0, ..wd.s },
        ..wd
    };
    lemma_equip_slot(w1, table, dflt);
    lemma_equip_tool_art(w1, table, dflt);
}

proof fn lemma_lock_slot(wd: World, cfg: ConfigModel, table: Seq<(u32, u32)>, budget: FrameBudget, dflt: u32)
    requires
        returning(wd.s, dflt),
        default_in_slot(wd.s, wd.e, table, dflt),
        cfg.tool_on_t == Some(dflt),
        item_id(table, dflt) is Some,
    ensures
        default_in_slot(lock_phase(wd, cfg, table, budget).s, lock_phase(wd, cfg, table, budget).e, table, dflt),
{
    reveal(lock_phase);
    if wd.s.tool_lock_left == 0 && wd.s.return_default_left > 0 {
        let s1 = ModState { return_default_left: (wd.s.return_default_left - 1) as u16, ..wd.s };
        if s1.return_default_left == 0 {
            lemma_return_slot(World { s: s1, ..wd }, cfg, table, dflt);
        }
    }
}

proof fn lemma_art_half_e(w2: World, k: FrameKeys, cfg: ConfigModel, table: Seq<(u32, u32)>, budget: FrameBudget, r: ComboReading)
    ensures
        art_half(w2, k, cfg, table, budget, r).0.e == w2.e,
{
    reveal(art_half);
    let s3 = abort_phase(w2.s, r, k.jumping, k.dodging);
    let s4 = swapout_phase(s3, k.attacking);
    let c6 = bare_block(select_art(s4, cfg, r), cfg, r, k.blocked_now);
    let s7 = swapout_reset(c6.s, k.blocking && k.attacked_now, c6.combo_fired, budget);
    if let Some(dd) = c6.desired {
        let w7 = World { s: s7, ..w2 };
        assert(equip_art(w7, table, dd).e == w2.e);
    }
}

proof fn lemma_step_slot(
    s0: ModState,
    cfg: ConfigModel,
    table: Seq<(u32, u32)>,
    budget: FrameBudget,
    e0: Equipment,
    i: FrameInput,
    dflt: u32,
)
    requires
        returning(s0, dflt),
        default_in_slot(s0, e0, table, dflt),
        cfg.tool_on_t == Some(dflt),
        item_id(table, dflt) is Some,
        no_tool_keys(i),
    ensures
        default_in_slot(
            step(s0, cfg, table, budget, i.d, i.r, i.acts, e0).s,
            step(s0, cfg, table, budget, i.d, i.r, i.acts, e0).e,
            table,
            dflt,
        ),
{
    let acts0 = i.acts;
    let k = keys_of(acts0.action, s0);
    let (w2, acts1) = front_half(s0, k, cfg, table, budget, i.d, acts0, e0);
    assert(default_in_slot(w2.s, w2.e, table, dflt)) by {
        reveal(front_half);
        let w1 = world(s0, e0, Seq::empty());
        let s1 = age_first(first_edges(w1.s, i.d, k.blocking, k.attacking, k.interacting));
        lemma_edges_keep(w1.s, i.d, k.blocking, k.attacking, k.interacting);
        let wa = switch_phase(World { s: s1, ..w1 }, cfg, table, budget, false);
        assert(wa.s == ModState { switch_down_last: false, ..s1 } && wa.e == w1.e) by {
            reveal(switch_phase);
        }
        let wb = use_phase(wa, cfg, table, budget, false);
        lemma_use_art(wa, cfg, table, budget, false);
        let wc = World { s: sustain_phase(wb.s, false, false, false), ..wb };
        assert(wc.s == wb.s);
        lemma_lock_slot(wc, cfg, table, budget, dflt);
    }
    let (w9, cf, cl) = art_half(w2, k, cfg, table, budget, i.r);
    lemma_art_half_keeps_tool(w2, k, cfg, table, budget, i.r);
    lemma_art_half_e(w2, k, cfg, table, budget, i.r);
    lemma_inject_keeps(w9.s, acts1.action, k, cf, i.r);
}

proof fn lemma_run_slot(
    s0: ModState,
    cfg: ConfigModel,
    table: Seq<(u32, u32)>,
    budget: FrameBudget,
    e0: Equipment,
    ins: Seq<FrameInput>,
    dflt: u32,
)
    requires
        returning(s0, dflt),
        default_in_slot(s0, e0, table, dflt),
        cfg.tool_on_t == Some(dflt),
        item_id(table, dflt) is Some,
        budget.return_delay > 0,
        forall|j: int| 0 <= j < ins.len() ==> no_tool_keys(#[trigger] ins[j]),
    ensures
        default_in_slot(run(s0, cfg, table, budget, e0, ins).0, run(s0, cfg, table, budget, e0, ins).1, table, dflt),
    decreases ins.len(),
{
    if ins.len() > 0 {
        let pre = ins.drop_last();
        assert forall|j: int| 0 <= j < pre.len() implies no_tool_keys(#[trigger] pre[j]) by {
            assert(pre[j] == ins[j]);
        }
        lemma_run_slot(s0, cfg, table, budget, e0, pre, dflt);
        law_default_returns_after_lock(s0, cfg, table, budget, e0, pre, dflt);
        let (s1, e1) = run(s0, cfg, table, budget, e0, pre);
        assert(no_tool_keys(ins[ins.len() - 1]));
        lemma_step_slot(s1, cfg, table, budget, e1, ins.last(), dflt);
    }
}

/// With the default back after a lock and its return delay, its item is in
/// the active prosthetic slot.
pub proof fn law_default_back_in_slot(
    s0: ModState,
    cfg: ConfigModel,
    table: Seq<(u32, u32)>,
    budget: FrameBudget,
    e0: Equipment,
    ins: Seq<FrameInput>,
    dflt: u32,
)
    requires
        returning(s0, dflt),
        s0.cur_tool != Some(dflt),
        cfg.tool_on_t == Some(dflt),
        item_id(table, dflt) is Some,
        budget.return_delay > 0,
        forall|j: int| 0 <= j < ins.len() ==> no_tool_keys(#[trigger] ins[j]),
        ins.len() >= return_frames(s0, dflt, budget),
    ensures
        run(s0, cfg, table, budget, e0, ins).0.cur_tool == Some(dflt),
        item_id(table, dflt) == Some(slot_raw(run(s0, cfg, table, budget, e0, ins).1, run(s0, cfg, table, budget, e0, ins).1.active)),
{
    law_default_returns_after_lock(s0, cfg, table, budget, e0, ins, dflt);
    lemma_run_slot(s0, cfg, table, budget, e0, ins, dflt);
}

proof fn lemma_lock_phase_in_lock(wd: World, cfg: ConfigModel, table: Seq<(u32, u32)>, budget: FrameBudget)
    requires
        wd.s.tool_lock_left > 0,
    ensures
        lock_phase(wd, cfg, table, budget).s.cur_tool == wd.s.cur_tool,
        lock_phase(wd, cfg, table, budget).e == wd.e,
        lock_phase(wd, cfg, table, budget).w == wd.w,
{
    reveal(lock_phase);
}

/// No tool switching while a lock lasts: the prosthetic part of a frame that
/// starts within a lock keeps the current tool and writes no prosthetic slot,
/// whatever keys are pressed.
pub proof fn law_lock_blocks_switching(
    wd: World,
    acts: Actions,
    cfg: ConfigModel,
    table: Seq<(u32, u32)>,
    budget: FrameBudget,
    d: Directions,
    b: bool,
    a: bool,
    i: bool,
    u: bool,
    un: bool,
)
    requires
        wd.s.tool_lock_left > 0,
    ensures
        prosthetic_phase(wd, acts, cfg, table, budget, d, b, a, i, u, un).0.s.cur_tool == wd.s.cur_tool,
        prosthetic_phase(wd, acts, cfg, table, budget, d, b, a, i, u, un).0.e == wd.e,
        prosthetic_phase(wd, acts, cfg, table, budget, d, b, a, i, u, un).0.w == wd.w,
{
    let s1 = age_first(first_edges(wd.s, d, b, a, i));
    lemma_edges_keep(wd.s, d, b, a, i);
    let sd = acts.action & SWITCH_PROSTHETIC != 0;
    let w1 = World { s: s1, ..wd };
    let w2 = switch_phase(w1, cfg, table, budget, sd);
    lemma_switch_in_lock(w1, cfg, table, budget, sd);
    let w3 = use_phase(w2, cfg, table, budget, un);
    lemma_use_in_lock(w2, cfg, table, budget, un);
    let w4 = World { s: sustain_phase(w3.s, sd, u, un), ..w3 };
    lemma_lock_phase_in_lock(w4, cfg, table, budget);
}

/// Every slot write is one of the combat-art slot.
pub open spec fn only_art_writes(w: Seq<SlotWrite>) -> bool {
    forall|j: int| 0 <= j < w.len() ==> (#[trigger] w[j]).slot_index == COMBAT_ART_SLOT
}

proof fn lemma_art_half_writes(w2: World, k: FrameKeys, cfg: ConfigModel, table: Seq<(u32, u32)>, budget: FrameBudget, r: ComboReading)
    requires
        only_art_writes(w2.w),
    ensures
        only_art_writes(art_half(w2, k, cfg, table, budget, r).0.w),
        art_half(w2, k, cfg, table, budget, r).0.e == w2.e,
{
    reveal(art_half);
    lemma_art_half_e(w2, k, cfg, table, budget, r);
    let s3 = abort_phase(w2.s, r, k.jumping, k.dodging);
    let s4 = swapout_phase(s3, k.attacking);
    let c6 = bare_block(select_art(s4, cfg, r), cfg, r, k.blocked_now);
    let s7 = swapout_reset(c6.s, k.blocking && k.attacked_now, c6.combo_fired, budget);
    if let Some(dd) = c6.desired {
        let w7 = World { s: s7, ..w2 };
        let w8 = equip_art(w7, table, dd);
        assert(only_art_writes(w8.w)) by {
            if let Some(wt) = try_art(w7, table, dd) {
                assert(only_art_writes(wt.w));
            }
            if let Some(fb) = art_fallback(dd) {
                if let Some(wt) = try_art(w7, table, fb) {
                    assert(only_art_writes(wt.w));
                }
            }
        }
    }
}

/// A lock keeps the prosthetic as it is: once the first frame is past, a
/// frame that starts within a lock ends with the same current tool, leaves
/// the prosthetic slots as they were, and writes no slot but the combat
/// art's, whatever keys are pressed.
pub proof fn law_lock_frame_writes_no_tool_slot(
    s0: ModState,
    cfg: ConfigModel,
    table: Seq<(u32, u32)>,
    budget: FrameBudget,
    d: Directions,
    r: ComboReading,
    acts0: Actions,
    e0: Equipment,
)
    requires
        s0.tools_inited,
        s0.tool_lock_left > 0,
    ensures
        step(s0, cfg, table, budget, d, r, acts0, e0).s.cur_tool == s0.cur_tool,
        step(s0, cfg, table, budget, d, r, acts0, e0).e == e0,
        only_art_writes(step(s0, cfg, table, budget, d, r, acts0, e0).w),
{
    let k = keys_of(acts0.action, s0);
    let (w2, acts1) = front_half(s0, k, cfg, table, budget, d, acts0, e0);
    assert(w2.s.cur_tool == s0.cur_tool && w2.e == e0 && w2.w == Seq::<SlotWrite>::empty()) by {
        reveal(front_half);
        let w1 = world(s0, e0, Seq::empty());
        law_lock_blocks_switching(w1, acts0, cfg, table, budget, d, k.blocking, k.attacking, k.interacting, k.using, k.used_now);
    }
    let (w9, cf, cl) = art_half(w2, k, cfg, table, budget, r);
    lemma_art_half_keeps_tool(w2, k, cfg, table, budget, r);
    lemma_art_half_writes(w2, k, cfg, table, budget, r);
    lemma_inject_keeps(w9.s, acts1.action, k, cf, r);
}

proof fn lemma_equip_art_delay(wd: World, table: Seq<(u32, u32)>, d: u32)
    ensures
        equip_art(wd, table, d).s.cur_art != wd.s.cur_art ==> equip_art(wd, table, d).s.attack_delay
            == ATTACK_SUPRESSION_DURATION,
{
}

proof fn lemma_art_half_swap_delay(w2: World, k: FrameKeys, cfg: ConfigModel, table: Seq<(u32, u32)>, budget: FrameBudget, r: ComboReading)
    ensures
        art_half(w2, k, cfg, table, budget, r).0.s.cur_art != w2.s.cur_art ==> art_half(
            w2,
            k,
            cfg,
            table,
            budget,
            r,
        ).0.s.attack_delay == ATTACK_SUPRESSION_DURATION,
{
    reveal(art_half);
    let s3 = abort_phase(w2.s, r, k.jumping, k.dodging);
    let s4 = swapout_phase(s3, k.attacking);
    let c6 = bare_block(select_art(s4, cfg, r), cfg, r, k.blocked_now);
    assert(c6.s.cur_art == w2.s.cur_art);
    let s7 = swapout_reset(c6.s, k.blocking && k.attacked_now, c6.combo_fired, budget);
    if let Some(dd) = c6.desired {
        lemma_equip_art_delay(World { s: s7, ..w2 }, table, dd);
    }
}

proof fn lemma_inject_delay_clears(s9: ModState, act: u64, k: FrameKeys, cf: bool, r: ComboReading)
    requires
        s9.attack_delay >= 2,
    ensures
        inject_half(s9, act, k, cf, r).1 & ATTACK == 0,
{
    reveal(inject_half);
    let (s10, a10) = legacy_injection(s9, act, cf, k.jumping, k.dodging, k.attacking, k.blocking);
    assert(s10.attack_delay == s9.attack_delay) by {
        reveal(legacy_injection);
    }
    let (s11, a11) = suppression(s10, a10, k.used_now, k.blocked_now, cf, k.using);
    assert(s11.attack_delay == s9.attack_delay) by {
        reveal(suppression);
    }
    let (s12, a12) = attack_delay_phase(s11, a11);
    lemma_fire_bits(a11);
    assert(s12.attack_delay >= 1 && a12 & ATTACK == 0) by {
        reveal(attack_delay_phase);
    }
    let s13 = prime_phase(s12);
    assert(s13.attack_delay >= 1) by {
        reveal(prime_phase);
    }
    let (s14, a14) = fire_phase(s13, a12, r);
    assert(a14 == a12) by {
        reveal(fire_phase);
    }
    let (s15, a15) = use_inject_phase(s14, a14);
    lemma_fire_bits(a14);
    assert(a15 & ATTACK == a14 & ATTACK) by {
        reveal(use_inject_phase);
    }
}

/// The frame in which a combat art is swapped in sends no ATTACK, whatever
/// the keys: an attack that reached the game together with the swap would
/// perform another art.
pub proof fn law_swap_frame_sends_no_attack(
    s0: ModState,
    cfg: ConfigModel,
    table: Seq<(u32, u32)>,
    budget: FrameBudget,
    d: Directions,
    r: ComboReading,
    acts0: Actions,
    e0: Equipment,
)
    ensures
        step(s0, cfg, table, budget, d, r, acts0, e0).s.cur_art != s0.cur_art ==> step(
            s0,
            cfg,
            table,
            budget,
            d,
            r,
            acts0,
            e0,
        ).acts.action & ATTACK == 0,
{
    let k = keys_of(acts0.action, s0);
    let (w2, acts1) = front_half(s0, k, cfg, table, budget, d, acts0, e0);
    lemma_front_art(s0, k, cfg, table, budget, d, acts0, e0);
    let (w9, cf, cl) = art_half(w2, k, cfg, table, budget, r);
    lemma_art_half_swap_delay(w2, k, cfg, table, budget, r);
    lemma_inject_keeps(w9.s, acts1.action, k, cf, r);
    if w9.s.cur_art != w2.s.cur_art {
        lemma_inject_delay_clears(w9.s, acts1.action, k, cf, r);
    }
}

proof fn lemma_run_append(
    s: ModState,
    cfg: ConfigModel,
    table: Seq<(u32, u32)>,
    budget: FrameBudget,
    e: Equipment,
    a: Seq<FrameInput>,
    b: Seq<FrameInput>,
)
    ensures
        run(s, cfg, table, budget, e, a + b) == run(
            run(s, cfg, table, budget, e, a).0,
            cfg,
            table,
            budget,
            run(s, cfg, table, budget, e, a).1,
            b,
        ),
    decreases b.len(),
{
    if b.len() == 0 {
        assert(a + b =~= a);
    } else {
        lemma_run_append(s, cfg, table, budget, e, a, b.drop_last());
        assert((a + b).drop_last() =~= a + b.drop_last());
        assert((a + b).last() == b.last());
    }
}

proof fn lemma_step_release(
    s0: ModState,
    cfg: ConfigModel,
    table: Seq<(u32, u32)>,
    budget: FrameBudget,
    e0: Equipment,
    i: FrameInput,
    dflt: u32,
)
    requires
        s0.tools_inited,
        s0.hold_tool_tail is Some,
        s0.prosthetic_delay == 0,
        s0.tool_min_use == 0,
        s0.tool_lock_left > 0,
        s0.cur_tool != Some(dflt),
        cfg.tool_on_t == Some(dflt),
        budget.return_delay > 0,
        no_tool_keys(i),
    ensures
        returning(step(s0, cfg, table, budget, i.d, i.r, i.acts, e0).s, dflt),
        return_frames(step(s0, cfg, table, budget, i.d, i.r, i.acts, e0).s, dflt, budget) == s0.tool_lock_left
            - 1 + budget.return_delay,
        step(s0, cfg, table, budget, i.d, i.r, i.acts, e0).s.cur_tool == s0.cur_tool,
{
    let acts0 = i.acts;
    let k = keys_of(acts0.action, s0);
    let (w2, acts1) = front_half(s0, k, cfg, table, budget, i.d, acts0, e0);
    assert(returning(w2.s, dflt) && w2.s.cur_tool == s0.cur_tool && return_frames(w2.s, dflt, budget)
        == s0.tool_lock_left - 1 + budget.return_delay) by {
        reveal(front_half);
        let w1 = world(s0, e0, Seq::empty());
        let s1 = age_first(first_edges(w1.s, i.d, k.blocking, k.attacking, k.interacting));
        lemma_edges_keep(w1.s, i.d, k.blocking, k.attacking, k.interacting);
        let wa = switch_phase(World { s: s1, ..w1 }, cfg, table, budget, false);
        lemma_switch_art(World { s: s1, ..w1 }, cfg, table, budget, false);
        let wb = use_phase(wa, cfg, table, budget, false);
        lemma_use_art(wa, cfg, table, budget, false);
        let wc = World { s: sustain_phase(wb.s, false, false, false), ..wb };
        assert(wc.s == ModState { hold_tool_tail: None, ..wb.s });
        reveal(lock_phase);
    }
    let (w9, cf, cl) = art_half(w2, k, cfg, table, budget, i.r);
    lemma_art_half_keeps_tool(w2, k, cfg, table, budget, i.r);
    lemma_inject_keeps(w9.s, acts1.action, k, cf, i.r);
    lemma_inject_idle_tool(w9.s, acts1.action, k, cf, i.r);
}

/// Back to the default from the release of the tail: when the tail of a tool
/// other than the bare-`t` default goes up (its settle and minimum-use frames
/// over) and frames without `q` or `t` follow, within the lock plus the return
/// delay the default is the current tool with its item in the active slot
/// (when the inventory has it).
pub proof fn law_default_returns_from_release(
    s0: ModState,
    cfg: ConfigModel,
    table: Seq<(u32, u32)>,
    budget: FrameBudget,
    e0: Equipment,
    ins: Seq<FrameInput>,
    dflt: u32,
)
    requires
        s0.tools_inited,
        s0.hold_tool_tail is Some,
        s0.prosthetic_delay == 0,
        s0.tool_min_use == 0,
        s0.tool_lock_left > 0,
        s0.cur_tool != Some(dflt),
        cfg.tool_on_t == Some(dflt),
        item_id(table, dflt) is Some,
        budget.return_delay > 0,
        forall|j: int| 0 <= j < ins.len() ==> no_tool_keys(#[trigger] ins[j]),
        ins.len() >= s0.tool_lock_left + budget.return_delay,
    ensures
        run(s0, cfg, table, budget, e0, ins).0.cur_tool == Some(dflt),
        item_id(table, dflt) == Some(slot_raw(run(s0, cfg, table, budget, e0, ins).1, run(s0, cfg, table, budget, e0, ins).1.active)),
{
    let a = ins.take(1);
    let b = ins.skip(1);
    assert(a + b =~= ins);
    lemma_run_append(s0, cfg, table, budget, e0, a, b);
    lemma_run_last(s0, cfg, table, budget, e0, ins, 0);
    assert(ins.take(0) =~= Seq::<FrameInput>::empty());
    assert(run(s0, cfg, table, budget, e0, ins.take(0)) == (s0, e0));
    assert(no_tool_keys(ins[0]));
    lemma_step_release(s0, cfg, table, budget, e0, ins[0], dflt);
    let (s1, e1) = run(s0, cfg, table, budget, e0, a);
    assert(s1 == step(s0, cfg, table, budget, ins[0].d, ins[0].r, ins[0].acts, e0).s);
    assert forall|j: int| 0 <= j < b.len() implies no_tool_keys(#[trigger] b[j]) by {
        assert(b[j] == ins[j + 1]);
    }
    law_default_back_in_slot(s1, cfg, table, budget, e1, b, dflt);
}

/// Key `n` of a frame: the four directions, then block, attack, interact,
/// `q` (switch) and `t` (use) among the action bits.
pub open spec fn key_in(i: FrameInput, n: int) -> bool {
    if n == 0 {
        i.d.up
    } else if n == 1 {
        i.d.right
    } else if n == 2 {
        i.d.down
    } else if n == 3 {
        i.d.left
    } else if n == 4 {
        i.acts.action & BLOCK != 0
    } else if n == 5 {
        i.acts.action & ATTACK != 0
    } else if n == 6 {
        i.acts.action & INTERACT != 0
    } else if n == 7 {
        i.acts.action & SWITCH_PROSTHETIC != 0
    } else {
        i.acts.action & USE_PROSTHETIC != 0
    }
}

/// Whether the mod saw key `n` down in the last frame.
pub open spec fn key_state(s: ModState, n: int) -> bool {
    if n == 0 {
        s.key_up
    } else if n == 1 {
        s.key_right
    } else if n == 2 {
        s.key_down
    } else if n == 3 {
        s.key_left
    } else if n == 4 {
        s.tool_block_down
    } else if n == 5 {
        s.tool_attack_down
    } else if n == 6 {
        s.tool_interact_down
    } else if n == 7 {
        s.switch_down_last
    } else {
        s.using_tool_last_frame
    }
}

/// Key `n` was down just before frame `j` of `ins` (in `s0` for the first).
pub open spec fn down_before(s0: ModState, ins: Seq<FrameInput>, j: int, n: int) -> bool {
    if j == 0 {
        key_state(s0, n)
    } else {
        key_in(ins[j - 1], n)
    }
}

/// No key goes down anew in frame `j` of `ins`; keys may stay down.
pub open spec fn no_press_at(s0: ModState, ins: Seq<FrameInput>, j: int) -> bool {
    forall|n: int| 0 <= n < 9 ==> #[trigger] key_in(ins[j], n) ==> down_before(s0, ins, j, n)
}

/// No key of `i` goes down anew after state `s`.
pub open spec fn no_press(s: ModState, i: FrameInput) -> bool {
    forall|n: int| 0 <= n < 9 ==> #[trigger] key_in(i, n) ==> key_state(s, n)
}

/// After frame `i` the mod has seen exactly its keys down.
pub open spec fn keys_follow(s: ModState, i: FrameInput) -> bool {
    forall|n: int| 0 <= n < 9 ==> #[trigger] key_state(s, n) == key_in(i, n)
}

/// A first key `f` of a prosthetic combo is pending, `age` frames old, with no
/// lock running.
pub open spec fn first_pending(s: ModState, f: ToolFirst, age: u16) -> bool {
    &&& s.tools_inited
    &&& s.tool_first == Some(f)
    &&& s.tool_first_age == age
    &&& s.tool_lock_left == 0
}

/// The key tracking of the prosthetic combos agrees between two states.
pub open spec fn tool_keys_eq(a: ModState, b: ModState) -> bool {
    &&& a.key_up == b.key_up
    &&& a.key_right == b.key_right
    &&& a.key_down == b.key_down
    &&& a.key_left == b.key_left
    &&& a.tool_block_down == b.tool_block_down
    &&& a.tool_attack_down == b.tool_attack_down
    &&& a.tool_interact_down == b.tool_interact_down
    &&& a.tool_first == b.tool_first
    &&& a.tool_first_age == b.tool_first_age
    &&& a.switch_down_last == b.switch_down_last
}

#[verifier::rlimit(50)]
proof fn lemma_art_half_first(w2: World, k: FrameKeys, cfg: ConfigModel, table: Seq<(u32, u32)>, budget: FrameBudget, r: ComboReading)
    ensures
        tool_keys_eq(art_half(w2, k, cfg, table, budget, r).0.s, w2.s),
{
    reveal(art_half);
    let s3 = abort_phase(w2.s, r, k.jumping, k.dodging);
    let s4 = swapout_phase(s3, k.attacking);
    let c6 = bare_block(select_art(s4, cfg, r), cfg, r, k.blocked_now);
    assert(tool_keys_eq(c6.s, w2.s));
    let s7 = swapout_reset(c6.s, k.blocking && k.attacked_now, c6.combo_fired, budget);
    let w7 = World { s: s7, ..w2 };
    match c6.desired {
        Some(dd) => {
            let w8 = equip_art(w7, table, dd);
            assert(tool_keys_eq(w8.s, s7));
        },
        None => {},
    }
}

#[verifier::rlimit(50)]
proof fn lemma_inject_first(s9: ModState, act: u64, k: FrameKeys, cf: bool, r: ComboReading)
    ensures
        tool_keys_eq(inject_half(s9, act, k, cf, r).0, s9),
        inject_half(s9, act, k, cf, r).0.using_tool_last_frame == k.using,
{
    reveal(inject_half);
    let (s10, a10) = legacy_injection(s9, act, cf, k.jumping, k.dodging, k.attacking, k.blocking);
    assert(tool_keys_eq(s10, s9)) by {
        reveal(legacy_injection);
    }
    let (s11, a11) = suppression(s10, a10, k.used_now, k.blocked_now, cf, k.using);
    assert(tool_keys_eq(s11, s9)) by {
        reveal(suppression);
    }
    let (s12, a12) = attack_delay_phase(s11, a11);
    assert(tool_keys_eq(s12, s9)) by {
        reveal(attack_delay_phase);
    }
    let s13 = prime_phase(s12);
    assert(tool_keys_eq(s13, s9)) by {
        reveal(prime_phase);
    }
    let (s14, a14) = fire_phase(s13, a12, r);
    assert(tool_keys_eq(s14, s9)) by {
        reveal(fire_phase);
    }
    reveal(use_inject_phase);
}

/// First-key tracking when no first key goes down anew: nothing is pushed and
/// the tracked keys become the held ones.
#[verifier::rlimit(60)]
proof fn lemma_edges_nopress(s: ModState, d: Directions, b: bool, a: bool, i: bool)
    requires
        d.up ==> s.key_up,
        d.right ==> s.key_right,
        d.down ==> s.key_down,
        d.left ==> s.key_left,
        b ==> s.tool_block_down,
        a ==> s.tool_attack_down,
        i ==> s.tool_interact_down,
    ensures
        first_edges(s, d, b, a, i).tool_first == s.tool_first,
        first_edges(s, d, b, a, i).tool_first_age == s.tool_first_age,
        first_edges(s, d, b, a, i).key_up == d.up,
        first_edges(s, d, b, a, i).key_right == d.right,
        first_edges(s, d, b, a, i).key_down == d.down,
        first_edges(s, d, b, a, i).key_left == d.left,
        first_edges(s, d, b, a, i).tool_block_down == b,
        first_edges(s, d, b, a, i).tool_attack_down == a,
        first_edges(s, d, b, a, i).tool_interact_down == i,
{
    let s1 = edge_up(s, d.up);
    assert(s1 == ModState { key_up: d.up, ..s }) by {
        reveal(edge_up);
    }
    let s2 = edge_right(s1, d.right);
    assert(s2 == ModState { key_right: d.right, ..s1 }) by {
        reveal(edge_right);
    }
    let s3 = edge_down(s2, d.down);
    assert(s3 == ModState { key_down: d.down, ..s2 }) by {
        reveal(edge_down);
    }
    let s4 = edge_left(s3, d.left);
    assert(s4 == ModState { key_left: d.left, ..s3 }) by {
        reveal(edge_left);
    }
    let s5 = edge_block(s4, b);
    assert(s5 == ModState { tool_block_down: b, ..s4 }) by {
        reveal(edge_block);
    }
    let s6 = edge_attack(s5, a);
    assert(s6 == ModState { tool_attack_down: a, ..s5 }) by {
        reveal(edge_attack);
    }
    let s7 = edge_interact(s6, i);
    assert(s7 == ModState { tool_interact_down: i, ..s6 }) by {
        reveal(edge_interact);
    }
    assert(first_edges(s, d, b, a, i) == s7);
}

proof fn lemma_lock_first(wd: World, cfg: ConfigModel, table: Seq<(u32, u32)>, budget: FrameBudget)
    ensures
        tool_keys_eq(lock_phase(wd, cfg, table, budget).s, wd.s),
        wd.s.tool_lock_left == 0 ==> lock_phase(wd, cfg, table, budget).s.tool_lock_left == 0,
{
    reveal(lock_phase);
    lemma_lock_art(wd, cfg, table, budget);
    if wd.s.tool_lock_left == 0 && wd.s.return_default_left > 0 {
        let s1 = ModState { return_default_left: (wd.s.return_default_left - 1) as u16, ..wd.s };
        lemma_return_art(World { s: s1, ..wd }, cfg, table);
        let w1 = World {
            s: ModState { return_default_left: 0, tool_lock_left: 0, hold_tool_tail: None, tool_min_use: 0, ..s1 },
            ..wd
        };
        if let Some(uid) = cfg.tool_on_t {
            lemma_equip_tool_art(w1, table, uid);
            assert(tool_keys_eq(equip_tool(w1, table, uid).1.s, w1.s)) by {
                reveal(equip_tool);
            }
        }
    }
}

#[verifier::rlimit(50)]
proof fn lemma_step_idle_first(
    s0: ModState,
    cfg: ConfigModel,
    table: Seq<(u32, u32)>,
    budget: FrameBudget,
    e0: Equipment,
    i: FrameInput,
    f: ToolFirst,
    age: u16,
)
    requires
        first_pending(s0, f, age),
        age < TOOL_FIRST_MAX_AGE - 1,
        no_press(s0, i),
    ensures
        first_pending(step(s0, cfg, table, budget, i.d, i.r, i.acts, e0).s, f, (age + 1) as u16),
        keys_follow(step(s0, cfg, table, budget, i.d, i.r, i.acts, e0).s, i),
{
    let acts0 = i.acts;
    let k = keys_of(acts0.action, s0);
    assert(key_in(i, 0) ==> key_state(s0, 0));
    assert(key_in(i, 1) ==> key_state(s0, 1));
    assert(key_in(i, 2) ==> key_state(s0, 2));
    assert(key_in(i, 3) ==> key_state(s0, 3));
    assert(key_in(i, 4) ==> key_state(s0, 4));
    assert(key_in(i, 5) ==> key_state(s0, 5));
    assert(key_in(i, 6) ==> key_state(s0, 6));
    assert(key_in(i, 7) ==> key_state(s0, 7));
    assert(key_in(i, 8) ==> key_state(s0, 8));
    assert(!k.used_now);
    let sd = acts0.action & SWITCH_PROSTHETIC != 0;
    let (w2, acts1) = front_half(s0, k, cfg, table, budget, i.d, acts0, e0);
    assert(w2.s.tools_inited && w2.s.tool_first == Some(f) && w2.s.tool_first_age == (age + 1) as u16
        && w2.s.tool_lock_left == 0 && w2.s.switch_down_last == sd && w2.s.key_up == i.d.up
        && w2.s.key_right == i.d.right && w2.s.key_down == i.d.down && w2.s.key_left == i.d.left
        && w2.s.tool_block_down == k.blocking && w2.s.tool_attack_down == k.attacking
        && w2.s.tool_interact_down == k.interacting) by {
        reveal(front_half);
        let w1 = world(s0, e0, Seq::empty());
        let s1 = age_first(first_edges(w1.s, i.d, k.blocking, k.attacking, k.interacting));
        lemma_edges_keep(w1.s, i.d, k.blocking, k.attacking, k.interacting);
        lemma_edges_nopress(w1.s, i.d, k.blocking, k.attacking, k.interacting);
        let wa = switch_phase(World { s: s1, ..w1 }, cfg, table, budget, sd);
        assert(wa.s == ModState { switch_down_last: sd, ..s1 } && wa.e == w1.e && wa.w == w1.w) by {
            reveal(switch_phase);
        }
        let wb = use_phase(wa, cfg, table, budget, false);
        lemma_use_art(wa, cfg, table, budget, false);
        let wc = World { s: sustain_phase(wb.s, sd, k.using, false), ..wb };
        assert(tool_keys_eq(wc.s, wb.s) && wc.s.tool_lock_left == wb.s.tool_lock_left
            && wc.s.tools_inited == wb.s.tools_inited);
        lemma_lock_first(wc, cfg, table, budget);
        lemma_lock_art(wc, cfg, table, budget);
    }
    let (w9, cf, cl) = art_half(w2, k, cfg, table, budget, i.r);
    lemma_art_half_keeps_tool(w2, k, cfg, table, budget, i.r);
    lemma_art_half_first(w2, k, cfg, table, budget, i.r);
    lemma_inject_keeps(w9.s, acts1.action, k, cf, i.r);
    lemma_inject_first(w9.s, acts1.action, k, cf, i.r);
    let s9 = step(s0, cfg, table, budget, i.d, i.r, i.acts, e0).s;
    assert forall|n: int| 0 <= n < 9 implies #[trigger] key_state(s9, n) == key_in(i, n) by {}
}

proof fn lemma_arm_fresh(wd: World, table: Seq<(u32, u32)>, budget: FrameBudget, uid: u32, tail: ToolTail)
    requires
        wd.s.tool_lock_left == 0,
        item_id(table, uid) is Some,
    ensures
        arm_tool(wd, table, budget, uid, tail).s.cur_tool == Some(uid),
        arm_tool(wd, table, budget, uid, tail).s.hold_tool_tail == Some(tail),
        arm_tool(wd, table, budget, uid, tail).s.tool_first is None,
        arm_tool(wd, table, budget, uid, tail).s.tool_min_use > 0,
        arm_tool(wd, table, budget, uid, tail).s.tool_lock_left > 0,
        item_id(table, uid) == Some(slot_raw(arm_tool(wd, table, budget, uid, tail).e, arm_tool(wd, table, budget, uid, tail).e.active)),
{
    reveal(arm_tool);
    lemma_equip_tool_art(wd, table, uid);
    lemma_equip_slot(wd, table, uid);
}

/// The tail `t` of a combo goes down in frame `i` after state `s` (and the
/// other tail does not), while no first key goes down anew.
pub open spec fn tail_press(s: ModState, i: FrameInput, t: ToolTail) -> bool {
    &&& forall|n: int| 0 <= n < 7 ==> #[trigger] key_in(i, n) ==> key_state(s, n)
    &&& match t {
        ToolTail::Use => key_in(i, 8) && !key_state(s, 8) && (key_in(i, 7) ==> key_state(s, 7)),
        ToolTail::Switch => key_in(i, 7) && !key_state(s, 7) && (key_in(i, 8) ==> key_state(s, 8)),
    }
}

proof fn lemma_tail_phase(
    wd: World,
    acts: Actions,
    cfg: ConfigModel,
    table: Seq<(u32, u32)>,
    budget: FrameBudget,
    d: Directions,
    b: bool,
    a: bool,
    i: bool,
    u: bool,
    un: bool,
    f: ToolFirst,
    t: ToolTail,
    uid: u32,
)
    requires
        wd.s.tool_first == Some(f),
        wd.s.tool_first_age < TOOL_FIRST_MAX_AGE - 1,
        wd.s.tool_lock_left == 0,
        d.up ==> wd.s.key_up,
        d.right ==> wd.s.key_right,
        d.down ==> wd.s.key_down,
        d.left ==> wd.s.key_left,
        b ==> wd.s.tool_block_down,
        a ==> wd.s.tool_attack_down,
        i ==> wd.s.tool_interact_down,
        match t {
            ToolTail::Use => un && !(acts.action & SWITCH_PROSTHETIC != 0 && !wd.s.switch_down_last),
            ToolTail::Switch => !un && acts.action & SWITCH_PROSTHETIC != 0 && !wd.s.switch_down_last,
        },
        tool_bind(cfg, f, t) == Some(uid),
        item_id(table, uid) is Some,
    ensures
        prosthetic_phase(wd, acts, cfg, table, budget, d, b, a, i, u, un).0.s.cur_tool == Some(uid),
        prosthetic_phase(wd, acts, cfg, table, budget, d, b, a, i, u, un).0.s.hold_tool_tail == Some(t),
        prosthetic_phase(wd, acts, cfg, table, budget, d, b, a, i, u, un).0.s.tool_first is None,
        item_id(table, uid) == Some(
            slot_raw(
                prosthetic_phase(wd, acts, cfg, table, budget, d, b, a, i, u, un).0.e,
                prosthetic_phase(wd, acts, cfg, table, budget, d, b, a, i, u, un).0.e.active,
            ),
        ),
{
    let s1 = age_first(first_edges(wd.s, d, b, a, i));
    lemma_edges_keep(wd.s, d, b, a, i);
    lemma_edges_nopress(wd.s, d, b, a, i);
    assert(s1.tool_first == Some(f) && s1.tool_lock_left == 0 && s1.switch_down_last == wd.s.switch_down_last);
    let sd = acts.action & SWITCH_PROSTHETIC != 0;
    let w1 = World { s: s1, ..wd };
    let w0 = World { s: ModState { switch_down_last: sd, ..s1 }, ..w1 };
    let w2 = switch_phase(w1, cfg, table, budget, sd);
    let w3 = use_phase(w2, cfg, table, budget, un);
    match t {
        ToolTail::Switch => {
            assert(w2 == arm_tool(w0, table, budget, uid, ToolTail::Switch)) by {
                reveal(switch_phase);
            }
            lemma_arm_fresh(w0, table, budget, uid, ToolTail::Switch);
            lemma_use_art(w2, cfg, table, budget, un);
        },
        ToolTail::Use => {
            assert(w2 == w0) by {
                reveal(switch_phase);
            }
            assert(w3 == arm_tool(w2, table, budget, uid, ToolTail::Use)) by {
                reveal(use_phase);
            }
            lemma_arm_fresh(w2, table, budget, uid, ToolTail::Use);
        },
    }
    assert(w3.s.cur_tool == Some(uid) && w3.s.hold_tool_tail == Some(t) && w3.s.tool_first is None
        && w3.s.tool_min_use > 0 && w3.s.tool_lock_left > 0);
    let w4 = World { s: sustain_phase(w3.s, sd, u, un), ..w3 };
    lemma_sustain_armed(w3.s, sd, u, un);
    assert(w4.s.tool_first is None);
    lemma_lock_while_held(w4, cfg, table, budget);
    lemma_lock_first(w4, cfg, table, budget);
    lemma_lock_phase_in_lock(w4, cfg, table, budget);
}

proof fn lemma_step_tail(
    s0: ModState,
    cfg: ConfigModel,
    table: Seq<(u32, u32)>,
    budget: FrameBudget,
    e0: Equipment,
    i: FrameInput,
    f: ToolFirst,
    age: u16,
    t: ToolTail,
    uid: u32,
)
    requires
        first_pending(s0, f, age),
        age < TOOL_FIRST_MAX_AGE - 1,
        tail_press(s0, i, t),
        tool_bind(cfg, f, t) == Some(uid),
        item_id(table, uid) is Some,
    ensures
        step(s0, cfg, table, budget, i.d, i.r, i.acts, e0).s.cur_tool == Some(uid),
        step(s0, cfg, table, budget, i.d, i.r, i.acts, e0).s.hold_tool_tail == Some(t),
        step(s0, cfg, table, budget, i.d, i.r, i.acts, e0).s.tool_first is None,
        item_id(table, uid) == Some(
            slot_raw(
                step(s0, cfg, table, budget, i.d, i.r, i.acts, e0).e,
                step(s0, cfg, table, budget, i.d, i.r, i.acts, e0).e.active,
            ),
        ),
{
    let acts0 = i.acts;
    let k = keys_of(acts0.action, s0);
    assert(key_in(i, 0) ==> key_state(s0, 0));
    assert(key_in(i, 1) ==> key_state(s0, 1));
    assert(key_in(i, 2) ==> key_state(s0, 2));
    assert(key_in(i, 3) ==> key_state(s0, 3));
    assert(key_in(i, 4) ==> key_state(s0, 4));
    assert(key_in(i, 5) ==> key_state(s0, 5));
    assert(key_in(i, 6) ==> key_state(s0, 6));
    let (w2, acts1) = front_half(s0, k, cfg, table, budget, i.d, acts0, e0);
    assert(w2.s.cur_tool == Some(uid) && w2.s.hold_tool_tail == Some(t) && w2.s.tool_first is None
        && item_id(table, uid) == Some(slot_raw(w2.e, w2.e.active))) by {
        reveal(front_half);
        let w1 = world(s0, e0, Seq::empty());
        lemma_tail_phase(
            w1,
            acts0,
            cfg,
            table,
            budget,
            i.d,
            k.blocking,
            k.attacking,
            k.interacting,
            k.using,
            k.used_now,
            f,
            t,
            uid,
        );
    }
    let (w9, cf, cl) = art_half(w2, k, cfg, table, budget, i.r);
    lemma_art_half_keeps_tool(w2, k, cfg, table, budget, i.r);
    lemma_art_half_first(w2, k, cfg, table, budget, i.r);
    lemma_art_half_e(w2, k, cfg, table, budget, i.r);
    lemma_inject_keeps(w9.s, acts1.action, k, cf, i.r);
    lemma_inject_first(w9.s, acts1.action, k, cf, i.r);
}

proof fn lemma_run_idle_first(
    s0: ModState,
    cfg: ConfigModel,
    table: Seq<(u32, u32)>,
    budget: FrameBudget,
    e0: Equipment,
    ins: Seq<FrameInput>,
    f: ToolFirst,
    age: u16,
)
    requires
        first_pending(s0, f, age),
        age + ins.len() < TOOL_FIRST_MAX_AGE,
        forall|j: int| 0 <= j < ins.len() ==> #[trigger] no_press_at(s0, ins, j),
    ensures
        first_pending(run(s0, cfg, table, budget, e0, ins).0, f, (age + ins.len()) as u16),
        forall|n: int| 0 <= n < 9 ==> #[trigger] key_state(run(s0, cfg, table, budget, e0, ins).0, n) == down_before(s0, ins, ins.len() as int, n),
    decreases ins.len(),
{
    if ins.len() > 0 {
        let pre = ins.drop_last();
        assert forall|j: int| 0 <= j < pre.len() implies #[trigger] no_press_at(s0, pre, j) by {
            assert(no_press_at(s0, ins, j));
            assert(pre[j] == ins[j]);
            if j > 0 {
                assert(pre[j - 1] == ins[j - 1]);
            }
            assert forall|n: int| 0 <= n < 9 && #[trigger] key_in(pre[j], n) implies down_before(s0, pre, j, n) by {
                assert(key_in(ins[j], n) ==> down_before(s0, ins, j, n));
            }
        }
        lemma_run_idle_first(s0, cfg, table, budget, e0, pre, f, age);
        let (s1, e1) = run(s0, cfg, table, budget, e0, pre);
        let last = ins[ins.len() - 1];
        assert(no_press_at(s0, ins, ins.len() - 1));
        assert forall|n: int| 0 <= n < 9 && #[trigger] key_in(last, n) implies key_state(s1, n) by {
            assert(key_in(ins[ins.len() - 1], n) ==> down_before(s0, ins, ins.len() - 1, n));
            assert(key_state(s1, n) == down_before(s0, pre, pre.len() as int, n));
            if ins.len() > 1 {
                assert(pre[pre.len() - 1] == ins[ins.len() - 2]);
            }
        }
        lemma_step_idle_first(s1, cfg, table, budget, e1, last, f, (age + pre.len()) as u16);
        let s2 = run(s0, cfg, table, budget, e0, ins).0;
        assert forall|n: int| 0 <= n < 9 implies #[trigger] key_state(s2, n) == down_before(s0, ins, ins.len() as int, n) by {
            assert(key_state(s2, n) == key_in(last, n));
        }
    }
}

/// The tail `t` goes down after the frames `ins` from `s0` (the other tail
/// not), while no first key goes down anew.
pub open spec fn tail_after(s0: ModState, ins: Seq<FrameInput>, tail: FrameInput, t: ToolTail) -> bool {
    let j = ins.len() as int;
    &&& forall|n: int| 0 <= n < 7 ==> #[trigger] key_in(tail, n) ==> down_before(s0, ins, j, n)
    &&& match t {
        ToolTail::Use => key_in(tail, 8) && !down_before(s0, ins, j, 8) && (key_in(tail, 7) ==> down_before(
            s0,
            ins,
            j,
            7,
        )),
        ToolTail::Switch => key_in(tail, 7) && !down_before(s0, ins, j, 7) && (key_in(tail, 8) ==> down_before(
            s0,
            ins,
            j,
            8,
        )),
    }
}

/// The two-key window of a prosthetic combo: a first key pending `age`
/// frames, then frames in which no key goes down anew (held keys, the first
/// one among them, may stay down), then its tail (`q` or `t`) going down
/// within the window (the first key ages one frame per frame and expires at
/// `TOOL_FIRST_MAX_AGE`), with held keys still allowed, arms the tool the
/// combo binds when the inventory has it: it is the current tool with its
/// tail held and its item in the active slot, and no first key is pending.
pub proof fn law_two_key_window(
    s0: ModState,
    cfg: ConfigModel,
    table: Seq<(u32, u32)>,
    budget: FrameBudget,
    e0: Equipment,
    ins: Seq<FrameInput>,
    tail: FrameInput,
    f: ToolFirst,
    age: u16,
    t: ToolTail,
    uid: u32,
)
    requires
        first_pending(s0, f, age),
        age + ins.len() < TOOL_FIRST_MAX_AGE - 1,
        forall|j: int| 0 <= j < ins.len() ==> #[trigger] no_press_at(s0, ins, j),
        tail_after(s0, ins, tail, t),
        tool_bind(cfg, f, t) == Some(uid),
        item_id(table, uid) is Some,
    ensures
        run(s0, cfg, table, budget, e0, ins.push(tail)).0.cur_tool == Some(uid),
        run(s0, cfg, table, budget, e0, ins.push(tail)).0.hold_tool_tail == Some(t),
        run(s0, cfg, table, budget, e0, ins.push(tail)).0.tool_first is None,
        item_id(table, uid) == Some(
            slot_raw(
                run(s0, cfg, table, budget, e0, ins.push(tail)).1,
                run(s0, cfg, table, budget, e0, ins.push(tail)).1.active,
            ),
        ),
{
    lemma_run_idle_first(s0, cfg, table, budget, e0, ins, f, age);
    assert(ins.push(tail).drop_last() =~= ins);
    let (s1, e1) = run(s0, cfg, table, budget, e0, ins);
    assert(tail_press(s1, tail, t)) by {
        assert forall|n: int| 0 <= n < 7 && #[trigger] key_in(tail, n) implies key_state(s1, n) by {
            assert(key_in(tail, n) ==> down_before(s0, ins, ins.len() as int, n));
        }
        assert(key_state(s1, 7) == down_before(s0, ins, ins.len() as int, 7));
        assert(key_state(s1, 8) == down_before(s0, ins, ins.len() as int, 8));
    }
    lemma_step_tail(s1, cfg, table, budget, e1, tail, f, (age + ins.len()) as u16, t, uid);
}

proof fn lemma_fire_bits(x: u64)
    ensures
        ((x | BLOCK) & !ATTACK) & ATTACK == 0,
        ((x | BLOCK) & !ATTACK) & BLOCK != 0,
        ((x | ATTACK) | BLOCK) & ATTACK != 0,
        ((x | ATTACK) | BLOCK) & BLOCK != 0,
        (x | ATTACK) & ATTACK != 0,
        (x & !ATTACK) & ATTACK == 0,
        (x | USE_PROSTHETIC) & ATTACK == x & ATTACK,
        (x | USE_PROSTHETIC) & BLOCK == x & BLOCK,
        (x & !USE_PROSTHETIC) & ATTACK == x & ATTACK,
        (x & !USE_PROSTHETIC) & BLOCK == x & BLOCK,
{
    assert(((x | 0x4u64) & !0x1u64) & 0x1u64 == 0) by (bit_vector);
    assert(((x | 0x4u64) & !0x1u64) & 0x4u64 != 0) by (bit_vector);
    assert(((x | 0x1u64) | 0x4u64) & 0x1u64 != 0) by (bit_vector);
    assert(((x | 0x1u64) | 0x4u64) & 0x4u64 != 0) by (bit_vector);
    assert((x | 0x1u64) & 0x1u64 != 0) by (bit_vector);
    assert((x & !0x1u64) & 0x1u64 == 0) by (bit_vector);
    assert((x | 0x40040002u64) & 0x1u64 == x & 0x1u64) by (bit_vector);
    assert((x | 0x40040002u64) & 0x4u64 == x & 0x4u64) by (bit_vector);
    assert((x & !0x40040002u64) & 0x1u64 == x & 0x1u64) by (bit_vector);
    assert((x & !0x40040002u64) & 0x4u64 == x & 0x4u64) by (bit_vector);
}

/// The art-fire part of a frame in which the fired art's key is held and no
/// key is used: the settle count goes down, the block-only prime starts once
/// settled, then block+attack opens the art, then attack is sustained.
pub open spec fn fire_tick_ok(s9: ModState, s: ModState, a: u64) -> bool {
    let d1: u8 = if s9.attack_delay > 0 {
        (s9.attack_delay - 1) as u8
    } else {
        0
    };
    let inj1: u8 = if s9.pending_rl_attack {
        ART_BLOCK_INJECTION_DURATION
    } else {
        s9.art_block_inject_left
    };
    &&& s.hold_for_attack == s9.hold_for_attack
    &&& s.art_tap_frames == 0
    &&& s.attack_delay == d1
    &&& if d1 > 0 {
        &&& a & ATTACK == 0
        &&& s.pending_rl_attack == s9.pending_rl_attack
        &&& s.art_block_inject_left == s9.art_block_inject_left
        &&& s.art_attack_latched == s9.art_attack_latched
    } else if inj1 > 0 {
        &&& a & ATTACK == 0
        &&& a & BLOCK != 0
        &&& !s.pending_rl_attack
        &&& s.art_block_inject_left == inj1 - 1
        &&& s.art_attack_latched == s9.art_attack_latched
    } else if !s9.art_attack_latched {
        &&& a & ATTACK != 0
        &&& a & BLOCK != 0
        &&& !s.pending_rl_attack
        &&& s.art_block_inject_left == 0
        &&& s.art_attack_latched
    } else {
        &&& a & ATTACK != 0
        &&& !s.pending_rl_attack
        &&& s.art_block_inject_left == 0
        &&& s.art_attack_latched
    }
}

/// Only block, attack and interact may be down among the action bits.
pub open spec fn only_art_keys(a: u64) -> bool {
    a & !(BLOCK | ATTACK | INTERACT) == 0
}

/// Neither block nor attack goes down anew from `prev` to `a`.
pub open spec fn no_new_press(prev: u64, a: u64) -> bool {
    &&& (a & BLOCK != 0 ==> prev & BLOCK != 0)
    &&& (a & ATTACK != 0 ==> prev & ATTACK != 0)
}

proof fn lemma_only_art_bits(x: u64)
    requires
        only_art_keys(x),
    ensures
        x & JUMP == 0,
        x & DODGE == 0,
        x & USE_PROSTHETIC == 0,
        x & SWITCH_PROSTHETIC == 0,
{
    assert(x & !0x1005u64 == 0 ==> x & 0x10u64 == 0) by (bit_vector);
    assert(x & !0x1005u64 == 0 ==> x & 0x2000u64 == 0) by (bit_vector);
    assert(x & !0x1005u64 == 0 ==> x & 0x40040002u64 == 0) by (bit_vector);
    assert(x & !0x1005u64 == 0 ==> x & 0x400u64 == 0) by (bit_vector);
    assert((0x4u64 | 0x1u64 | 0x1000u64) == 0x1005u64) by (bit_vector);
}

proof fn lemma_inject_fire(s9: ModState, act: u64, k: FrameKeys, cf: bool, r: ComboReading, h: ArtToken)
    requires
        s9.hold_for_attack == Some(h),
        token_held(r, h),
        s9.art_tap_frames == 0,
        !k.using,
    ensures
        fire_tick_ok(s9, inject_half(s9, act, k, cf, r).0, inject_half(s9, act, k, cf, r).1),
        inject_half(s9, act, k, cf, r).0.blocking_last_frame == k.blocking,
        inject_half(s9, act, k, cf, r).0.attacking_last_frame == k.attacking,
{
    reveal(inject_half);
    let (s10, a10) = legacy_injection(s9, act, cf, k.jumping, k.dodging, k.attacking, k.blocking);
    lemma_legacy_kept(s9, act, cf, k.jumping, k.dodging, k.attacking, k.blocking);
    assert(s10.attack_delay == s9.attack_delay && s10.pending_rl_attack == s9.pending_rl_attack
        && s10.art_block_inject_left == s9.art_block_inject_left && s10.art_attack_latched
        == s9.art_attack_latched) by {
        reveal(legacy_injection);
    }
    let (s11, a11) = suppression(s10, a10, k.used_now, k.blocked_now, cf, k.using);
    assert(s11 == ModState { disable_block: false, ..s10 } && a11 == a10) by {
        reveal(suppression);
    }
    let (s12, a12) = attack_delay_phase(s11, a11);
    let s13 = prime_phase(s12);
    let (s14, a14) = fire_phase(s13, a12, r);
    lemma_fire_bits(a11);
    lemma_fire_bits(a12);
    assert(fire_tick_ok(s9, s14, a14)) by {
        reveal(attack_delay_phase);
        reveal(prime_phase);
        reveal(fire_phase);
    }
    let (s15, a15) = use_inject_phase(s14, a14);
    lemma_fire_bits(a14);
    assert(s15.hold_for_attack == s14.hold_for_attack && s15.art_tap_frames == s14.art_tap_frames
        && s15.attack_delay == s14.attack_delay && s15.pending_rl_attack == s14.pending_rl_attack
        && s15.art_block_inject_left == s14.art_block_inject_left && s15.art_attack_latched
        == s14.art_attack_latched && a15 & ATTACK == a14 & ATTACK && a15 & BLOCK == a14 & BLOCK) by {
        reveal(use_inject_phase);
    }
}

proof fn lemma_art_half_firing(w2: World, k: FrameKeys, cfg: ConfigModel, table: Seq<(u32, u32)>, budget: FrameBudget, r: ComboReading, h: ArtToken)
    requires
        w2.s.hold_for_attack == Some(h),
        token_held(r, h),
        r.completed is None,
        !k.jumping && !k.dodging && !k.blocked_now && !(k.blocking && k.attacked_now),
    ensures
        !art_half(w2, k, cfg, table, budget, r).1,
        art_half(w2, k, cfg, table, budget, r).0.s.hold_for_attack == w2.s.hold_for_attack,
        art_half(w2, k, cfg, table, budget, r).0.s.art_tap_frames == w2.s.art_tap_frames,
        art_half(w2, k, cfg, table, budget, r).0.s.attack_delay == w2.s.attack_delay,
        art_half(w2, k, cfg, table, budget, r).0.s.pending_rl_attack == w2.s.pending_rl_attack,
        art_half(w2, k, cfg, table, budget, r).0.s.art_block_inject_left == w2.s.art_block_inject_left,
        art_half(w2, k, cfg, table, budget, r).0.s.art_attack_latched == w2.s.art_attack_latched,
{
    reveal(art_half);
    let s3 = abort_phase(w2.s, r, k.jumping, k.dodging);
    assert(s3 == w2.s);
    let s4 = swapout_phase(s3, k.attacking);
    let c5 = select_art(s4, cfg, r);
    assert(c5.s == s4 && c5.desired is None && !c5.combo_fired);
    let c6 = bare_block(c5, cfg, r, k.blocked_now);
    assert(c6 == c5);
}

/// One frame of an art being fired with its key held, only block, attack or
/// interact among the action bits, and neither block nor attack newly down:
/// `fire_tick_ok` relates the state before and after.
proof fn lemma_fire_step(
    s0: ModState,
    cfg: ConfigModel,
    table: Seq<(u32, u32)>,
    budget: FrameBudget,
    e0: Equipment,
    i: FrameInput,
    h: ArtToken,
)
    requires
        s0.hold_for_attack == Some(h),
        token_held(i.r, h),
        s0.art_tap_frames == 0,
        i.r.completed is None,
        only_art_keys(i.acts.action),
        i.acts.action & BLOCK != 0 ==> s0.blocking_last_frame,
        i.acts.action & ATTACK != 0 ==> s0.attacking_last_frame,
    ensures
        fire_tick_ok(
            s0,
            step(s0, cfg, table, budget, i.d, i.r, i.acts, e0).s,
            step(s0, cfg, table, budget, i.d, i.r, i.acts, e0).acts.action,
        ),
        step(s0, cfg, table, budget, i.d, i.r, i.acts, e0).s.blocking_last_frame == (i.acts.action & BLOCK != 0),
        step(s0, cfg, table, budget, i.d, i.r, i.acts, e0).s.attacking_last_frame == (i.acts.action & ATTACK != 0),
{
    let acts0 = i.acts;
    let k = keys_of(acts0.action, s0);
    lemma_only_art_bits(acts0.action);
    assert(!k.jumping && !k.dodging && !k.blocked_now && !(k.blocking && k.attacked_now) && !k.using);
    let (w2, acts1) = front_half(s0, k, cfg, table, budget, i.d, acts0, e0);
    lemma_front_art(s0, k, cfg, table, budget, i.d, acts0, e0);
    assert(acts1.action == acts0.action) by {
        reveal(front_half);
    }
    let (w9, cf, cl) = art_half(w2, k, cfg, table, budget, i.r);
    lemma_art_half_firing(w2, k, cfg, table, budget, i.r, h);
    lemma_inject_fire(w9.s, acts1.action, k, cf, i.r, h);
}

/// The frame in which a combo completes with no art firing: its art is
/// equipped (settling four frames, counted down once already) and armed with
/// its second key, with no ATTACK sent.
proof fn lemma_combo_step(
    s0: ModState,
    cfg: ConfigModel,
    table: Seq<(u32, u32)>,
    budget: FrameBudget,
    e0: Equipment,
    i: FrameInput,
    c: ArtCombo,
    u: u32,
    h: ArtToken,
)
    requires
        !art_fire_busy(s0),
        i.r.completed == Some(c),
        bind_get(cfg.arts, art_code(c)) == Some(u),
        art_second(c) == Some(h),
        token_held(i.r, h),
        s0.cur_art != Some(u),
        item_id(table, u) is Some,
        only_art_keys(i.acts.action),
    ensures
        step(s0, cfg, table, budget, i.d, i.r, i.acts, e0).acts.action & ATTACK == 0,
        step(s0, cfg, table, budget, i.d, i.r, i.acts, e0).s.cur_art == Some(u),
        step(s0, cfg, table, budget, i.d, i.r, i.acts, e0).s.hold_for_attack == Some(h),
        step(s0, cfg, table, budget, i.d, i.r, i.acts, e0).s.art_tap_frames == 0,
        step(s0, cfg, table, budget, i.d, i.r, i.acts, e0).s.attack_delay == ATTACK_SUPRESSION_DURATION - 1,
        step(s0, cfg, table, budget, i.d, i.r, i.acts, e0).s.pending_rl_attack,
        step(s0, cfg, table, budget, i.d, i.r, i.acts, e0).s.art_block_inject_left == 0,
        !step(s0, cfg, table, budget, i.d, i.r, i.acts, e0).s.art_attack_latched,
        step(s0, cfg, table, budget, i.d, i.r, i.acts, e0).s.blocking_last_frame == (i.acts.action & BLOCK != 0),
        step(s0, cfg, table, budget, i.d, i.r, i.acts, e0).s.attacking_last_frame == (i.acts.action & ATTACK != 0),
{
    let acts0 = i.acts;
    let k = keys_of(acts0.action, s0);
    lemma_only_art_bits(acts0.action);
    assert(!k.jumping && !k.dodging && !k.using);
    let (w2, acts1) = front_half(s0, k, cfg, table, budget, i.d, acts0, e0);
    lemma_front_art(s0, k, cfg, table, budget, i.d, acts0, e0);
    assert(acts1.action == acts0.action) by {
        reveal(front_half);
    }
    let (w9, cf, cl) = art_half(w2, k, cfg, table, budget, i.r);
    assert(w9.s.cur_art == Some(u) && w9.s.hold_for_attack == Some(h) && w9.s.art_tap_frames == 0
        && w9.s.attack_delay == ATTACK_SUPRESSION_DURATION && w9.s.pending_rl_attack
        && w9.s.art_block_inject_left == 0 && !w9.s.art_attack_latched) by {
        reveal(art_half);
        assert(!art_fire_busy(w2.s));
        let s3 = abort_phase(w2.s, i.r, k.jumping, k.dodging);
        assert(s3 == w2.s);
        let s4 = swapout_phase(s3, k.attacking);
        let c5 = select_art(s4, cfg, i.r);
        assert(c5.desired == Some(u) && c5.combo_fired);
    }
    lemma_inject_fire(w9.s, acts1.action, k, cf, i.r, h);
    lemma_inject_keeps(w9.s, acts1.action, k, cf, i.r);
}

/// The output of the last of the frames `ins` (which must not be empty).
pub open spec fn last_out(
    s: ModState,
    cfg: ConfigModel,
    table: Seq<(u32, u32)>,
    budget: FrameBudget,
    e: Equipment,
    ins: Seq<FrameInput>,
) -> StepOut {
    let (s1, e1) = run(s, cfg, table, budget, e, ins.drop_last());
    step(s1, cfg, table, budget, ins.last().d, ins.last().r, ins.last().acts, e1)
}

/// The run to frame `j + 1` is one more frame after the run to `j`.
proof fn lemma_run_last(
    s0: ModState,
    cfg: ConfigModel,
    table: Seq<(u32, u32)>,
    budget: FrameBudget,
    e0: Equipment,
    ins: Seq<FrameInput>,
    j: int,
)
    requires
        0 <= j < ins.len(),
    ensures
        ins.take(j + 1).drop_last() == ins.take(j),
        ins.take(j + 1).last() == ins[j],
        run(s0, cfg, table, budget, e0, ins.take(j + 1)) == (
            last_out(s0, cfg, table, budget, e0, ins.take(j + 1)).s,
            last_out(s0, cfg, table, budget, e0, ins.take(j + 1)).e,
        ),
{
    assert(ins.take(j + 1).drop_last() =~= ins.take(j));
}

/// The conditions of the art-fire frames: only block, attack or interact
/// down, the second key `h` held, no combo after the first frame, and neither
/// block nor attack newly down after it.
pub open spec fn fire_inputs(ins: Seq<FrameInput>, h: ArtToken) -> bool {
    &&& forall|j: int| 0 <= j < ins.len() ==> only_art_keys((#[trigger] ins[j]).acts.action) && token_held(ins[j].r, h)
    &&& forall|j: int| 1 <= j < ins.len() ==> (#[trigger] ins[j]).r.completed is None && no_new_press(
        ins[j - 1].acts.action,
        ins[j].acts.action,
    )
}

/// One more fire frame of the timeline: from the run to frame `j`.
proof fn lemma_timeline_tick(
    s0: ModState,
    cfg: ConfigModel,
    table: Seq<(u32, u32)>,
    budget: FrameBudget,
    e0: Equipment,
    ins: Seq<FrameInput>,
    j: int,
    h: ArtToken,
)
    requires
        1 <= j < ins.len(),
        fire_inputs(ins, h),
        run(s0, cfg, table, budget, e0, ins.take(j)).0.hold_for_attack == Some(h),
        run(s0, cfg, table, budget, e0, ins.take(j)).0.art_tap_frames == 0,
        run(s0, cfg, table, budget, e0, ins.take(j)).0.blocking_last_frame == (ins[j - 1].acts.action & BLOCK != 0),
        run(s0, cfg, table, budget, e0, ins.take(j)).0.attacking_last_frame == (ins[j - 1].acts.action & ATTACK != 0),
    ensures
        fire_tick_ok(
            run(s0, cfg, table, budget, e0, ins.take(j)).0,
            last_out(s0, cfg, table, budget, e0, ins.take(j + 1)).s,
            last_out(s0, cfg, table, budget, e0, ins.take(j + 1)).acts.action,
        ),
        run(s0, cfg, table, budget, e0, ins.take(j + 1)).0.blocking_last_frame == (ins[j].acts.action & BLOCK != 0),
        run(s0, cfg, table, budget, e0, ins.take(j + 1)).0.attacking_last_frame == (ins[j].acts.action & ATTACK != 0),
{
    lemma_run_last(s0, cfg, table, budget, e0, ins, j);
    let (s1, e1) = run(s0, cfg, table, budget, e0, ins.take(j));
    assert(only_art_keys(ins[j].acts.action) && token_held(ins[j].r, h));
    assert(ins[j].r.completed is None && no_new_press(ins[j - 1].acts.action, ins[j].acts.action));
    lemma_fire_step(s1, cfg, table, budget, e1, ins[j], h);
}

/// A combat art fired by a combo, frame by frame while its second key stays
/// held, with no key in the actions but block, attack or interact, and none
/// of block and attack newly down after the combo's frame: the frame of the
/// combo and the next four send no ATTACK (the art settles), the fourth and
/// fifth send BLOCK without ATTACK (the prime), the sixth sends BLOCK+ATTACK
/// to open the art, and the seventh keeps ATTACK going.
pub proof fn law_art_fire_timeline(
    s0: ModState,
    cfg: ConfigModel,
    table: Seq<(u32, u32)>,
    budget: FrameBudget,
    e0: Equipment,
    ins: Seq<FrameInput>,
    c: ArtCombo,
    u: u32,
    h: ArtToken,
)
    requires
        ins.len() == 7,
        !art_fire_busy(s0),
        s0.cur_art != Some(u),
        item_id(table, u) is Some,
        ins[0].r.completed == Some(c),
        bind_get(cfg.arts, art_code(c)) == Some(u),
        art_second(c) == Some(h),
        fire_inputs(ins, h),
    ensures
        forall|j: int| 1 <= j <= 5 ==> #[trigger] last_out(s0, cfg, table, budget, e0, ins.take(j)).acts.action & ATTACK == 0,
        last_out(s0, cfg, table, budget, e0, ins.take(4)).acts.action & BLOCK != 0,
        last_out(s0, cfg, table, budget, e0, ins.take(5)).acts.action & BLOCK != 0,
        last_out(s0, cfg, table, budget, e0, ins.take(6)).acts.action & BLOCK != 0,
        last_out(s0, cfg, table, budget, e0, ins.take(6)).acts.action & ATTACK != 0,
        last_out(s0, cfg, table, budget, e0, ins.take(7)).acts.action & ATTACK != 0,
{
    lemma_run_last(s0, cfg, table, budget, e0, ins, 0);
    assert(ins.take(0) =~= Seq::<FrameInput>::empty());
    assert(only_art_keys(ins[0].acts.action) && token_held(ins[0].r, h));
    lemma_combo_step(s0, cfg, table, budget, e0, ins[0], c, u, h);
    lemma_timeline_tick(s0, cfg, table, budget, e0, ins, 1, h);
    lemma_timeline_tick(s0, cfg, table, budget, e0, ins, 2, h);
    lemma_timeline_tick(s0, cfg, table, budget, e0, ins, 3, h);
    lemma_timeline_tick(s0, cfg, table, budget, e0, ins, 4, h);
    lemma_timeline_tick(s0, cfg, table, budget, e0, ins, 5, h);
    lemma_timeline_tick(s0, cfg, table, budget, e0, ins, 6, h);
}

/// How many of the three prosthetic slots hold `x`.
pub open spec fn slot_count(e: Equipment, x: u32) -> int {
    (if e.slot0 == x { 1int } else { 0int }) + (if e.slot2 == x { 1int } else { 0int }) + (if e.slot4
        == x { 1int } else { 0int })
}

/// Equipping a tool that already sits in another slot swaps it with the
/// tool of the active slot: the active slot then holds the wanted tool, the
/// slot it came from holds the tool the active slot held (when it was the only
/// other slot with it), and the equipped items are the same as before, each as
/// often as before.
pub proof fn law_equip_swaps_with_other_slot(wd: World, table: Seq<(u32, u32)>, uid: u32, other: ProstheticSlot)
    requires
        wd.s.ejection is None,
        item_id(table, uid) is Some,
        other != wd.e.active,
        slot_raw(wd.e, other) == item_id(table, uid)->0,
        get_tool(wd.e, wd.e.active) is Some,
        slot_raw(wd.e, wd.e.active) != item_id(table, uid)->0,
    ensures
        equip_tool(wd, table, uid).0,
        equip_tool(wd, table, uid).1.e.active == wd.e.active,
        slot_raw(equip_tool(wd, table, uid).1.e, wd.e.active) == item_id(table, uid)->0,
        forall|x: u32| #[trigger] slot_count(equip_tool(wd, table, uid).1.e, x) == slot_count(wd.e, x),
        (forall|o: ProstheticSlot| o != other && o != wd.e.active ==> slot_raw(wd.e, o) != item_id(table, uid)->0)
            ==> slot_raw(equip_tool(wd, table, uid).1.e, other) == slot_raw(wd.e, wd.e.active),
{
    assert(slot_raw(wd.e, ProstheticSlot::S0) == wd.e.slot0);
    assert(slot_raw(wd.e, ProstheticSlot::S1) == wd.e.slot2);
    assert(slot_raw(wd.e, ProstheticSlot::S2) == wd.e.slot4);
}

/// An upgraded combat art that the inventory lacks falls back to its basic
/// version when the inventory has that: Ichimonji for Ichimonji: Double,
/// Praying Strikes for its Exorcism, Senpo Leaping Kicks for High Monk,
/// Shadowrush for Shadowfall, Mortal Draw for its Empowered form. The basic
/// art becomes the current art, written into the art slot.
pub proof fn law_basic_art_stands_in(wd: World, table: Seq<(u32, u32)>, up: u32, basic: u32)
    requires
        (up == ICHIMONJI_DOUBLE && basic == ICHIMONJI) || (up == PRAYING_STRIKES_EXORCISM && basic
            == PRAYING_STRIKES) || (up == HIGH_MONK && basic == SENPO_LEAPING_KICKS) || (up == SHADOWFALL
            && basic == SHADOWRUSH) || (up == EMPOWERED_MORTAL_DRAW && basic == MORTAL_DRAW),
        item_id(table, up) is None,
        item_id(table, basic) is Some,
        wd.s.cur_art != Some(up),
    ensures
        equip_art(wd, table, up).s.cur_art == Some(basic),
        wd.s.cur_art != Some(basic) ==> equip_art(wd, table, up).w == wd.w.push(
            SlotWrite { slot_index: COMBAT_ART_SLOT, item: item_id(table, basic)->0 },
        ),
{
}

/// Each motion character of a bind names its own key, the key the game's
/// input reports for it: `↑ → ↓ ←` the four directions, `r` block, `l`
/// attack, `e` (or `f`) interact, in either case. A combo token read from the
/// character is held exactly when that key is held, and the same key going
/// down starts the prosthetic first key that the character reads as.
pub proof fn law_motion_chars_name_their_keys(r: ComboReading, s: ModState)
    ensures
        (token_of('↑') matches Some(t) && token_held(r, t) == r.held.up),
        (token_of('→') matches Some(t) && token_held(r, t) == r.held.right),
        (token_of('↓') matches Some(t) && token_held(r, t) == r.held.down),
        (token_of('←') matches Some(t) && token_held(r, t) == r.held.left),
        (token_of('r') matches Some(t) && token_held(r, t) == r.held.block),
        (token_of('R') matches Some(t) && token_held(r, t) == r.held.block),
        (token_of('l') matches Some(t) && token_held(r, t) == r.held.attack),
        (token_of('L') matches Some(t) && token_held(r, t) == r.held.attack),
        (token_of('e') matches Some(t) && token_held(r, t) == r.held.interact),
        (token_of('E') matches Some(t) && token_held(r, t) == r.held.interact),
        (token_of('f') matches Some(t) && token_held(r, t) == r.held.interact),
        (token_of('F') matches Some(t) && token_held(r, t) == r.held.interact),
        !s.key_up ==> edge_up(s, true).tool_first == first_of('↑'),
        !s.key_right ==> edge_right(s, true).tool_first == first_of('→'),
        !s.key_down ==> edge_down(s, true).tool_first == first_of('↓'),
        !s.key_left ==> edge_left(s, true).tool_first == first_of('←'),
        !s.tool_block_down ==> edge_block(s, true).tool_first == first_of('r'),
        !s.tool_attack_down ==> edge_attack(s, true).tool_first == first_of('l'),
        !s.tool_interact_down ==> edge_interact(s, true).tool_first == first_of('e'),
{
    reveal(edge_up);
    reveal(edge_right);
    reveal(edge_down);
    reveal(edge_left);
    reveal(edge_block);
    reveal(edge_attack);
    reveal(edge_interact);
}

} // verus!

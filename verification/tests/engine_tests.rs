use battle_instinct::config::{Config, ToolTail};
use battle_instinct::engine::{
    standard_frame_budget,
    Actions, ComboReading, Directions, Equipment, FrameBudget, FrameEffects, ItemID, ItemTable, Mod,
    ProstheticSlot, SlotWrite, TokenHeld, ATTACK, BLOCK, DODGE, INTERACT, SWITCH_PROSTHETIC, USE_PROSTHETIC,
};
use battle_instinct::input::{ArtCombo, ArtToken};

const SHURIKEN: u32 = 70500;
const MIST_RAVEN: u32 = 74100;
const SABIMARU: u32 = 75300;
const ICHIMONJI_DOUBLE: u32 = 7100;

const CFG: &str = "70500 Lazulite Shuriken t\n74100 Mist Raven q\n75300 Sabimaru ↑t\n7100 Ichimonji: Double ee\n5500 Ashina Cross r↓";
const ASHINA_CROSS: u32 = 5500;

fn budget(tool_locks: Vec<(u32, u16)>) -> FrameBudget {
    FrameBudget {
        return_delay: 84,
        tool_lock: 60,
        tool_locks,
        swapout_ashina_cross: 30,
        swapout_one_mind: 30,
        swapout_sakura_dance: 30,
        swapout_other: 30,
        swapout_none: 30,
    }
}

fn items() -> ItemTable {
    ItemTable {
        entries: vec![(SHURIKEN, 100), (MIST_RAVEN, 101), (SABIMARU, 102), (ICHIMONJI_DOUBLE, 300), (ASHINA_CROSS, 301)],
    }
}

fn no_keys() -> TokenHeld {
    TokenHeld { up: false, right: false, down: false, left: false, block: false, attack: false, interact: false }
}

fn idle() -> ComboReading {
    ComboReading { completed: None, awaiting_second: false, held: no_keys() }
}

fn still() -> Directions {
    Directions { up: false, right: false, down: false, left: false }
}

fn equipment() -> Equipment {
    Equipment { active: ProstheticSlot::S0, slot0: 102, slot2: 0, slot4: 0 }
}

struct Rig {
    m: Mod,
    e: Equipment,
    table: ItemTable,
    budget: FrameBudget,
}

impl Rig {
    fn new(tool_locks: Vec<(u32, u16)>) -> Rig {
        Rig { m: Mod::new(Config::from_text(CFG)), e: equipment(), table: items(), budget: budget(tool_locks) }
    }

    fn frame_with(&mut self, action: u64, d: Directions, reading: ComboReading) -> (Actions, FrameEffects) {
        let mut acts = Actions { action, action_b: action, action_c: action };
        let fx = self.m.process_input(&mut acts, &d, &reading, &mut self.e, &self.table, &self.budget);
        (acts, fx)
    }

    fn frame(&mut self, action: u64) -> (Actions, FrameEffects) {
        self.frame_with(action, still(), idle())
    }
}

#[test]
fn item_id_is_never_zero() {
    assert!(ItemID::new(0).is_none());
    assert_eq!(ItemID::new(7).map(|i| i.get()), Some(7));
}

#[test]
fn prosthetic_slots_and_indices() {
    assert_eq!(ProstheticSlot::from_active(0), Some(ProstheticSlot::S0));
    assert_eq!(ProstheticSlot::from_active(1), Some(ProstheticSlot::S1));
    assert_eq!(ProstheticSlot::from_active(2), Some(ProstheticSlot::S2));
    assert_eq!(ProstheticSlot::from_active(3), None);
    assert_eq!(ProstheticSlot::S0.as_slot_index(), 0);
    assert_eq!(ProstheticSlot::S1.as_slot_index(), 2);
    assert_eq!(ProstheticSlot::S2.as_slot_index(), 4);
}

#[test]
fn item_uids_lists_every_bound_uid() {
    let m = Mod::new(Config::from_text(CFG));
    let uids = m.item_uids();
    for u in [SHURIKEN, MIST_RAVEN, SABIMARU, ICHIMONJI_DOUBLE] {
        assert!(uids.contains(&u));
    }
    assert!(!uids.contains(&72200));
}

#[test]
fn first_frame_equips_the_default_tool() {
    let mut rig = Rig::new(vec![]);
    assert!(!rig.m.state().tools_inited);
    let (_, fx) = rig.frame(0);
    let s = rig.m.state();
    assert!(s.tools_inited);
    assert_eq!(s.cur_tool, Some(SHURIKEN));
    assert_eq!(rig.e.slot0, 100);
    assert!(fx.writes.contains(&SlotWrite { slot_index: 0, item: 100 }));
}

#[test]
fn bare_q_arms_the_bare_q_tool() {
    let mut rig = Rig::new(vec![]);
    rig.frame(0);
    let (acts, _) = rig.frame(SWITCH_PROSTHETIC);
    let s = rig.m.state();
    assert_eq!(s.cur_tool, Some(MIST_RAVEN));
    assert_eq!(s.hold_tool_tail, Some(ToolTail::Switch));
    assert_eq!(s.tool_lock_left, 60);
    assert_eq!(rig.e.slot0, 101);
    assert_eq!(acts.action & SWITCH_PROSTHETIC, 0);
    assert_eq!(acts.action_b & SWITCH_PROSTHETIC, 0);
}

#[test]
fn held_tail_keeps_the_lock_and_release_counts_it_down() {
    let mut rig = Rig::new(vec![]);
    rig.frame(0);
    rig.frame(SWITCH_PROSTHETIC);
    for _ in 0..20 {
        rig.frame(SWITCH_PROSTHETIC);
        assert_eq!(rig.m.state().tool_lock_left, 60);
    }
    for _ in 0..10 {
        rig.frame(0);
    }
    let s = rig.m.state();
    assert!(s.tool_lock_left < 60 && s.tool_lock_left > 0);
    assert_eq!(s.cur_tool, Some(MIST_RAVEN));
}

#[test]
fn lock_then_return_delay_goes_back_to_default() {
    let mut rig = Rig::new(vec![]);
    rig.frame(0);
    rig.frame(SWITCH_PROSTHETIC);
    let mut frames = 0;
    while rig.m.state().cur_tool == Some(MIST_RAVEN) && frames < 400 {
        rig.frame(0);
        frames += 1;
    }
    assert_eq!(rig.m.state().cur_tool, Some(SHURIKEN));
    assert!(frames >= 60 + 84);
    assert!(frames < 60 + 84 + 10);
    assert_eq!(rig.e.slot0, 100);
}

#[test]
fn own_tool_lock_from_the_budget() {
    let mut rig = Rig::new(vec![(MIST_RAVEN, 5)]);
    rig.frame(0);
    rig.frame(SWITCH_PROSTHETIC);
    assert_eq!(rig.m.state().tool_lock_left, 5);
    let mut frames = 0;
    while rig.m.state().tool_lock_left > 0 && frames < 100 {
        rig.frame(0);
        frames += 1;
    }
    assert_eq!(rig.m.state().return_default_left, 84);
}

#[test]
fn zero_tool_lock_still_ends_after_release() {
    let mut rig = Rig::new(vec![(MIST_RAVEN, 0)]);
    rig.frame(0);
    rig.frame(SWITCH_PROSTHETIC);
    assert_eq!(rig.m.state().tool_lock_left, 1);
    for _ in 0..20 {
        rig.frame(0);
    }
    let s = rig.m.state();
    assert_eq!(s.tool_lock_left, 0);
    assert!(s.return_default_left > 0);
}

#[test]
fn combo_then_t_arms_the_bound_tool_and_repress_refreshes() {
    let mut rig = Rig::new(vec![]);
    rig.frame(0);
    let up = Directions { up: true, right: false, down: false, left: false };
    rig.frame_with(0, up, idle());
    rig.frame(USE_PROSTHETIC);
    assert_eq!(rig.m.state().cur_tool, Some(SABIMARU));
    assert_eq!(rig.m.state().hold_tool_tail, Some(ToolTail::Use));
    for _ in 0..15 {
        rig.frame(0);
    }
    let s = rig.m.state();
    assert!(s.tool_lock_left < 60);
    assert!(s.hold_tool_tail.is_none());
    rig.frame(USE_PROSTHETIC);
    let s = rig.m.state();
    assert_eq!(s.cur_tool, Some(SABIMARU));
    assert_eq!(s.tool_lock_left, 60);
    assert_eq!(s.hold_tool_tail, Some(ToolTail::Use));
}

#[test]
fn q_during_a_lock_refires_the_current_tool() {
    let mut rig = Rig::new(vec![]);
    rig.frame(0);
    let up = Directions { up: true, right: false, down: false, left: false };
    rig.frame_with(0, up, idle());
    rig.frame(USE_PROSTHETIC);
    for _ in 0..15 {
        rig.frame(0);
    }
    rig.frame(SWITCH_PROSTHETIC);
    let s = rig.m.state();
    assert_eq!(s.cur_tool, Some(SABIMARU));
    assert_eq!(s.tool_lock_left, 60);
    assert_eq!(s.hold_tool_tail, Some(ToolTail::Switch));
}

#[test]
fn completed_combo_equips_and_fires_its_art() {
    let mut rig = Rig::new(vec![]);
    rig.frame(0);
    let held = TokenHeld { interact: true, ..no_keys() };
    let reading = ComboReading {
        completed: Some(ArtCombo::pair(ArtToken::Interact, ArtToken::Interact)),
        awaiting_second: false,
        held,
    };
    let (_, fx) = rig.frame_with(0, still(), reading);
    let s = rig.m.state();
    assert_eq!(s.cur_art, Some(ICHIMONJI_DOUBLE));
    assert_eq!(s.hold_for_attack, Some(ArtToken::Interact));
    assert!(fx.clear_combo);
    assert!(fx.writes.contains(&SlotWrite { slot_index: 1, item: 300 }));
}

#[test]
fn dodge_aborts_the_art_fire() {
    let mut rig = Rig::new(vec![]);
    rig.frame(0);
    let held = TokenHeld { interact: true, ..no_keys() };
    let reading = ComboReading {
        completed: Some(ArtCombo::pair(ArtToken::Interact, ArtToken::Interact)),
        awaiting_second: false,
        held,
    };
    rig.frame_with(0, still(), reading);
    let still_held = ComboReading { completed: None, awaiting_second: false, held };
    rig.frame_with(DODGE, still(), still_held);
    let s = rig.m.state();
    assert!(s.hold_for_attack.is_none());
    assert!(s.queued_art.is_none());
}

#[test]
fn held_second_key_keeps_attacking_and_release_stops() {
    let mut rig = Rig::new(vec![]);
    rig.frame(0);
    let held = TokenHeld { interact: true, ..no_keys() };
    let reading = ComboReading {
        completed: Some(ArtCombo::pair(ArtToken::Interact, ArtToken::Interact)),
        awaiting_second: false,
        held,
    };
    let (acts, _) = rig.frame_with(0, still(), reading);
    assert_eq!(acts.action & ATTACK, 0);
    let still_held = ComboReading { completed: None, awaiting_second: false, held };
    let mut attacked = 0;
    for _ in 0..30 {
        let (acts, _) = rig.frame_with(0, still(), still_held);
        if acts.action & ATTACK != 0 {
            attacked += 1;
        }
    }
    assert!(attacked >= 20);
    let (acts, _) = rig.frame_with(0, still(), idle());
    assert_eq!(acts.action & ATTACK, 0);
    assert!(rig.m.state().hold_for_attack.is_none());
}

#[test]
fn combo_while_firing_is_queued_and_fires_after_release() {
    let mut rig = Rig::new(vec![]);
    rig.frame(0);
    let held = TokenHeld { interact: true, ..no_keys() };
    let ee = ComboReading {
        completed: Some(ArtCombo::pair(ArtToken::Interact, ArtToken::Interact)),
        awaiting_second: false,
        held,
    };
    rig.frame_with(0, still(), ee);
    let still_held = ComboReading { completed: None, awaiting_second: false, held };
    for _ in 0..10 {
        rig.frame_with(0, still(), still_held);
    }
    let both = TokenHeld { interact: true, down: true, ..no_keys() };
    let cross = ComboReading {
        completed: Some(ArtCombo::pair(ArtToken::Block, ArtToken::Down)),
        awaiting_second: false,
        held: both,
    };
    let (_, fx) = rig.frame_with(0, still(), cross);
    assert!(fx.clear_combo);
    assert_eq!(rig.m.state().queued_art, Some((ASHINA_CROSS, ArtToken::Down)));
    assert_eq!(rig.m.state().cur_art, Some(ICHIMONJI_DOUBLE));
    let down_only = ComboReading { completed: None, awaiting_second: false, held: TokenHeld { down: true, ..no_keys() } };
    let (_, fx) = rig.frame_with(0, still(), down_only);
    let s = rig.m.state();
    assert_eq!(s.cur_art, Some(ASHINA_CROSS));
    assert_eq!(s.hold_for_attack, Some(ArtToken::Down));
    assert!(s.queued_art.is_none());
    assert!(fx.writes.contains(&SlotWrite { slot_index: 1, item: 301 }));
}

#[test]
fn two_key_window_spans_idle_frames_and_expires() {
    let up = Directions { up: true, right: false, down: false, left: false };
    let mut rig = Rig::new(vec![]);
    rig.frame(0);
    rig.frame_with(0, up, idle());
    for _ in 0..15 {
        rig.frame(0);
    }
    rig.frame(USE_PROSTHETIC);
    assert_eq!(rig.m.state().cur_tool, Some(SABIMARU));
    assert_eq!(rig.m.state().hold_tool_tail, Some(ToolTail::Use));
    assert!(rig.m.state().tool_first.is_none());

    let mut rig = Rig::new(vec![]);
    rig.frame(0);
    rig.frame_with(0, up, idle());
    for _ in 0..17 {
        rig.frame(0);
    }
    rig.frame(USE_PROSTHETIC);
    assert_eq!(rig.m.state().cur_tool, Some(SHURIKEN));
}

#[test]
fn art_fire_frame_by_frame() {
    let mut rig = Rig::new(vec![]);
    rig.frame(0);
    let held = TokenHeld { interact: true, ..no_keys() };
    let ee = ComboReading {
        completed: Some(ArtCombo::pair(ArtToken::Interact, ArtToken::Interact)),
        awaiting_second: false,
        held,
    };
    let still_held = ComboReading { completed: None, awaiting_second: false, held };
    let mut out = vec![rig.frame_with(0, still(), ee).0.action];
    for _ in 0..6 {
        out.push(rig.frame_with(0, still(), still_held).0.action);
    }
    for a in &out[0..5] {
        assert_eq!(a & ATTACK, 0);
    }
    assert_ne!(out[3] & BLOCK, 0);
    assert_ne!(out[4] & BLOCK, 0);
    assert_ne!(out[5] & BLOCK, 0);
    assert_ne!(out[5] & ATTACK, 0);
    assert_ne!(out[6] & ATTACK, 0);
}

#[test]
fn standard_budget_keeps_prosthetic_locks_only() {
    let b = standard_frame_budget(60, &vec![(7100, 5), (74100, 30), (100000, 0), (100001, 9)]);
    assert_eq!(b.tool_lock, 60);
    assert_eq!(b.return_delay, 84);
    assert_eq!(b.tool_locks, vec![(74100, 30), (100000, 0)]);
    assert_eq!(b.swapout_ashina_cross, 75);
    assert_eq!(b.swapout_one_mind, 240);
    assert_eq!(b.swapout_sakura_dance, 60);
    assert_eq!(b.swapout_other, 40);
    assert_eq!(b.swapout_none, 0);
}

fn rig_with(cfg: &str) -> Rig {
    Rig { m: Mod::new(Config::from_text(cfg)), e: equipment(), table: items(), budget: budget(vec![]) }
}

#[test]
fn two_key_window_with_first_key_still_held() {
    let up = Directions { up: true, right: false, down: false, left: false };
    let mut rig = Rig::new(vec![]);
    rig.frame(0);
    for _ in 0..6 {
        rig.frame_with(0, up, idle());
    }
    rig.frame_with(USE_PROSTHETIC, up, idle());
    let s = rig.m.state();
    assert_eq!(s.cur_tool, Some(SABIMARU));
    assert_eq!(s.hold_tool_tail, Some(ToolTail::Use));
    assert!(s.tool_first.is_none());
    assert_eq!(rig.e.slot0, 102);
}

#[test]
fn art_fire_with_second_key_bits_held() {
    let mut rig = Rig::new(vec![]);
    rig.frame(0);
    let held = TokenHeld { interact: true, ..no_keys() };
    let ee = ComboReading {
        completed: Some(ArtCombo::pair(ArtToken::Interact, ArtToken::Interact)),
        awaiting_second: false,
        held,
    };
    let still_held = ComboReading { completed: None, awaiting_second: false, held };
    let mut out = vec![rig.frame_with(INTERACT, still(), ee).0.action];
    for _ in 0..6 {
        out.push(rig.frame_with(INTERACT, still(), still_held).0.action);
    }
    for a in &out[0..5] {
        assert_eq!(a & ATTACK, 0);
    }
    assert_ne!(out[3] & BLOCK, 0);
    assert_ne!(out[4] & BLOCK, 0);
    assert_ne!(out[5] & BLOCK, 0);
    assert_ne!(out[5] & ATTACK, 0);
    assert_ne!(out[6] & ATTACK, 0);
}

#[test]
fn art_fire_with_attack_as_second_key() {
    let mut rig = rig_with("70500 Lazulite Shuriken t\n7100 Ichimonji: Double el");
    rig.frame(0);
    let held = TokenHeld { attack: true, ..no_keys() };
    let el = ComboReading {
        completed: Some(ArtCombo::pair(ArtToken::Interact, ArtToken::Attack)),
        awaiting_second: false,
        held,
    };
    let still_held = ComboReading { completed: None, awaiting_second: false, held };
    let mut out = vec![rig.frame_with(ATTACK, still(), el).0.action];
    assert_eq!(rig.m.state().cur_art, Some(ICHIMONJI_DOUBLE));
    for _ in 0..6 {
        out.push(rig.frame_with(ATTACK, still(), still_held).0.action);
    }
    for a in &out[0..5] {
        assert_eq!(a & ATTACK, 0);
    }
    assert_ne!(out[3] & BLOCK, 0);
    assert_ne!(out[4] & BLOCK, 0);
    assert_ne!(out[5] & BLOCK, 0);
    assert_ne!(out[5] & ATTACK, 0);
    assert_ne!(out[6] & ATTACK, 0);
}

#[test]
fn swap_frame_drops_a_pressed_attack() {
    let mut rig = Rig::new(vec![]);
    rig.frame(0);
    let held = TokenHeld { interact: true, attack: true, ..no_keys() };
    let ee = ComboReading {
        completed: Some(ArtCombo::pair(ArtToken::Interact, ArtToken::Interact)),
        awaiting_second: false,
        held,
    };
    let (acts, _) = rig.frame_with(ATTACK | INTERACT, still(), ee);
    assert_eq!(rig.m.state().cur_art, Some(ICHIMONJI_DOUBLE));
    assert_eq!(acts.action & ATTACK, 0);
}

#[test]
fn lock_frames_write_no_prosthetic_slot() {
    let up = Directions { up: true, right: false, down: false, left: false };
    let mut rig = Rig::new(vec![]);
    rig.frame(0);
    rig.frame(SWITCH_PROSTHETIC);
    rig.frame(0);
    assert!(rig.m.state().tool_lock_left > 0);
    let (_, fx1) = rig.frame_with(0, up, idle());
    let (_, fx2) = rig.frame_with(USE_PROSTHETIC, up, idle());
    let s = rig.m.state();
    assert_eq!(s.cur_tool, Some(MIST_RAVEN));
    assert_eq!(rig.e.slot0, 101);
    for w in fx1.writes.iter().chain(fx2.writes.iter()) {
        assert_eq!(w.slot_index % 2, 1);
    }
}

#[test]
fn default_returns_within_lock_and_delay_of_release() {
    let mut rig = Rig::new(vec![]);
    rig.frame(0);
    for _ in 0..25 {
        rig.frame(SWITCH_PROSTHETIC);
    }
    assert_eq!(rig.m.state().cur_tool, Some(MIST_RAVEN));
    let mut frames = 0;
    while rig.m.state().cur_tool == Some(MIST_RAVEN) && frames < 400 {
        rig.frame(0);
        frames += 1;
    }
    assert_eq!(rig.m.state().cur_tool, Some(SHURIKEN));
    assert!(frames <= 60 + 84);
    assert_eq!(rig.e.slot0, 100);
}

#[test]
fn first_key_and_tail_in_the_same_frame() {
    let up = Directions { up: true, right: false, down: false, left: false };
    let mut rig = Rig::new(vec![]);
    rig.frame(0);
    rig.frame_with(USE_PROSTHETIC, up, idle());
    let s = rig.m.state();
    assert_eq!(s.cur_tool, Some(SABIMARU));
    assert_eq!(s.hold_tool_tail, Some(ToolTail::Use));
    assert!(s.tool_first.is_none());
}

use battle_instinct::cfg_meta::{boot_console_from_content, parse_boot_console_comment};
use battle_instinct::config::{
    tool_uid_multi_lock_category, Config, ToolCombo, ToolFirst, ToolMultiLockCategory, ToolTail,
};
use battle_instinct::input::{ArtCombo, ArtToken};

/// Default `rl` window, in seconds.
const DEFAULT_RL_WINDOW_SECS: f32 = 0.1;
/// Default multi-hit lock, in seconds.
const DEFAULT_TOOL_MULTI_LOCK_SECS: f32 = 1.0;

fn secs_of(text: &[char]) -> f32 {
    text.iter().collect::<String>().parse::<f32>().unwrap()
}

fn rl_window_secs_to_frames(secs: f32) -> u16 {
    (secs * 60.0).round().clamp(1.0, 120.0) as u16
}

fn tool_multi_lock_secs_to_frames(secs: f32) -> u16 {
    if secs <= 0.0 {
        0
    } else {
        (secs * 60.0).round().clamp(1.0, 300.0) as u16
    }
}

fn rl_combo_max_age(config: &Config) -> u16 {
    let secs = match &config.rl_window_secs {
        Some(t) => secs_of(t),
        None => DEFAULT_RL_WINDOW_SECS,
    };
    rl_window_secs_to_frames(secs)
}

fn tool_lock_frames(config: &Config, uid: Option<u32>) -> u16 {
    let secs = match config.tool_lock_secs(uid) {
        Some(t) => secs_of(&t),
        None => DEFAULT_TOOL_MULTI_LOCK_SECS,
    };
    tool_multi_lock_secs_to_frames(secs)
}

fn text(v: &Option<Vec<char>>) -> Option<String> {
    v.as_ref().map(|t| t.iter().collect())
}

#[test]
fn test_boot_console_comment() {
    assert_eq!(parse_boot_console_comment("# 启动信息print窗口: 关"), Some(false));
    assert_eq!(parse_boot_console_comment("# 启动窗口: 关"), Some(false));
    assert_eq!(parse_boot_console_comment("# boot console: on"), Some(true));
    let config = Config::from_text("# 启动信息print窗口: 开\n7100 x ee");
    assert!(config.boot_console);
    assert!(!Config::default().boot_console);
}

#[test]
fn test_rl_window_comment() {
    let config = Config::from_text("# rl触发时限: 0.2s\n7100  x  ee");
    assert_eq!(rl_combo_max_age(&config), 12);

    let config = Config::from_text("# rl window: 0.15\n7700 Sakura rl");
    assert_eq!(rl_combo_max_age(&config), 9);
    assert_eq!(rl_combo_max_age(&config), rl_window_secs_to_frames(0.15));
}

#[test]
fn test_tool_multi_lock_comment() {
    let config = Config::from_text("# 多段触发时限: 手里剑 0s, 锈丸 0.5s\n70500 x t");
    assert_eq!(tool_lock_frames(&config, Some(70500)), 0);
    assert_eq!(tool_lock_frames(&config, Some(75300)), 30);
    assert_eq!(
        tool_lock_frames(&config, Some(78400)),
        tool_multi_lock_secs_to_frames(DEFAULT_TOOL_MULTI_LOCK_SECS),
    );

    let config = Config::from_text("# 多段触发时限·雾鸦: 0s\n74100 x q");
    assert_eq!(tool_lock_frames(&config, Some(74100)), 0);
    assert!(config.tool_multi_lock_secs.contains_key(ToolMultiLockCategory::MistRaven));
}

#[test]
fn test_art_multi_bind() {
    let config = Config::from_text("7000  Nightjar Reversal  ↓l/l↓");
    assert_eq!(config.art(ArtCombo::pair(ArtToken::Down, ArtToken::Attack)), Some(7000));
    assert_eq!(config.art(ArtCombo::pair(ArtToken::Attack, ArtToken::Down)), Some(7000));
}

#[test]
fn test_load_tools_and_arts() {
    let raw = "
            7100  Ichimonji: Double           ee
            5500  Ashina Cross                r↓
            7400  High Monk                   el
            7700  Sakura Dance                rl
            5400  Dragon Flash                re
            6100  One Mind                    er
            70500 Lazulite Shuriken           t
            74100 Aged Feather Mist Raven     q
            75300 Lazulite Sabimaru           ↑t
            72200 Long Spark                  ↓q
            79200 Mountain Echo               →t
            ";
    let config = Config::from_text(raw);
    assert_eq!(config.art(ArtCombo::pair(ArtToken::Interact, ArtToken::Interact)), Some(7100));
    assert_eq!(config.tool_on_t, Some(70500));
    assert_eq!(config.tool_on_q, Some(74100));
    assert_eq!(config.tool(ToolCombo { first: ToolFirst::Up, tail: ToolTail::Use }), Some(75300));
    assert_eq!(config.tool(ToolCombo { first: ToolFirst::Down, tail: ToolTail::Switch }), Some(72200));
    assert_eq!(config.tool(ToolCombo { first: ToolFirst::Right, tail: ToolTail::Use }), Some(79200));
}

#[test]
fn first_art_bind_of_a_combo_wins() {
    let config = Config::from_text("7000 Nightjar ↓l\n7100 Ichimonji ↓l\n7100 Ichimonji ee");
    assert_eq!(config.art(ArtCombo::pair(ArtToken::Down, ArtToken::Attack)), Some(7000));
    assert_eq!(config.art(ArtCombo::pair(ArtToken::Interact, ArtToken::Interact)), Some(7100));
}

#[test]
fn first_bare_t_and_q_win() {
    let config = Config::from_text("70500 a t\n70600 b t\n74100 c q\n74200 d Q");
    assert_eq!(config.tool_on_t, Some(70500));
    assert_eq!(config.tool_on_q, Some(74100));
}

#[test]
fn first_tool_bind_of_a_combo_wins() {
    let config = Config::from_text("79200 Mountain Echo et\n77000 Spiral Spear et");
    assert_eq!(config.tool(ToolCombo { first: ToolFirst::Interact, tail: ToolTail::Use }), Some(79200));
}

#[test]
fn comment_lines_bind_nothing() {
    let config = Config::from_text("# 7000 Nightjar ↓l\n  #70500 x t");
    assert_eq!(config.art(ArtCombo::pair(ArtToken::Down, ArtToken::Attack)), None);
    assert_eq!(config.tool_on_t, None);
    assert!(config.arts.entries.is_empty());
    assert!(config.tools.entries.is_empty());
}

#[test]
fn words_after_hash_are_a_comment() {
    let config = Config::from_text("7000 Nightjar ↓l # l↓");
    assert_eq!(config.art(ArtCombo::pair(ArtToken::Down, ArtToken::Attack)), Some(7000));
    assert_eq!(config.art(ArtCombo::pair(ArtToken::Attack, ArtToken::Down)), None);
}

#[test]
fn out_of_range_uids_are_ignored() {
    let config = Config::from_text("4999 x ee\n10001 y ee\n69999 z t\n100001 w t");
    assert!(config.arts.entries.is_empty());
    assert_eq!(config.tool_on_t, None);
    let config = Config::from_text("5000 x ee\n10000 y rl\n70000 z t\n100000 w ↑t");
    assert_eq!(config.art(ArtCombo::pair(ArtToken::Interact, ArtToken::Interact)), Some(5000));
    assert_eq!(config.art(ArtCombo::pair(ArtToken::Block, ArtToken::Attack)), Some(10000));
    assert_eq!(config.tool_on_t, Some(70000));
    assert_eq!(config.tool(ToolCombo { first: ToolFirst::Up, tail: ToolTail::Use }), Some(100000));
}

#[test]
fn uid_with_plus_sign_parses() {
    let config = Config::from_text("+7100 x ee");
    assert_eq!(config.art(ArtCombo::pair(ArtToken::Interact, ArtToken::Interact)), Some(7100));
    let config = Config::from_text("7100x x ee\n-7100 y ee");
    assert!(config.arts.entries.is_empty());
}

#[test]
fn a_line_needs_a_motion_word() {
    let config = Config::from_text("7100\n70500");
    assert!(config.arts.entries.is_empty());
    assert_eq!(config.tool_on_t, None);
}

#[test]
fn empty_art_combo_and_legacy_interact() {
    let config = Config::from_text("5300 Ichimonji ∅\n7500 Praying fe");
    assert_eq!(config.art(ArtCombo::empty()), Some(5300));
    assert_eq!(config.art(ArtCombo::pair(ArtToken::Interact, ArtToken::Interact)), Some(7500));
}

#[test]
fn art_motions_need_exactly_two_tokens() {
    let config = Config::from_text("7000 x ↓\n7100 y ↓l↓\n7200 z ↓t");
    assert!(config.arts.entries.is_empty());
}

#[test]
fn tool_motions_need_q_or_t_tail() {
    let config = Config::from_text("75300 a ↑↓\n75400 b t↑\n75500 c tq\n75600 d ↑t↑");
    assert!(config.tools.entries.is_empty());
    assert_eq!(config.tool_on_t, None);
    let config = Config::from_text("75300 a qt\n75400 b lq\n75500 c rT");
    assert_eq!(config.tool(ToolCombo { first: ToolFirst::Switch, tail: ToolTail::Use }), Some(75300));
    assert_eq!(config.tool(ToolCombo { first: ToolFirst::Attack, tail: ToolTail::Switch }), Some(75400));
    assert_eq!(config.tool(ToolCombo { first: ToolFirst::Block, tail: ToolTail::Use }), Some(75500));
}

#[test]
fn bind_lock_suffix_binds_the_motion_and_notes_the_lock() {
    let config = Config::from_text("75300 Lazulite Sabimaru ↑q-0.5s\n70500 Shuriken t-0s");
    assert_eq!(config.tool(ToolCombo { first: ToolFirst::Up, tail: ToolTail::Switch }), Some(75300));
    assert_eq!(config.tool_on_t, Some(70500));
    assert_eq!(text(&config.tool_lock_secs(Some(75300))), Some("0.5".to_string()));
    assert_eq!(tool_lock_frames(&config, Some(75300)), 30);
    assert_eq!(tool_lock_frames(&config, Some(70500)), 0);
}

#[test]
fn bind_lock_suffix_with_a_label() {
    let config = Config::from_text("75300 a ↑q-多段触发时限0.67s\n76000 b ↓t-multi-hit0.5s");
    assert_eq!(text(&config.tool_lock_secs(Some(75300))), Some("0.67".to_string()));
    assert_eq!(text(&config.tool_lock_secs(Some(76000))), Some("0.5".to_string()));
    assert_eq!(config.tool(ToolCombo { first: ToolFirst::Down, tail: ToolTail::Use }), Some(76000));
}

#[test]
fn bind_lock_overrides_the_family_lock() {
    let config = Config::from_text("# 多段触发时限: 锈丸 0.5s\n75300 a ↑q-0.2s\n75400 b ↓q");
    assert_eq!(text(&config.tool_lock_secs(Some(75300))), Some("0.2".to_string()));
    assert_eq!(text(&config.tool_lock_secs(Some(75400))), Some("0.5".to_string()));
    assert_eq!(config.tool_lock_secs(Some(79200)), None);
    assert_eq!(config.tool_lock_secs(None), None);
}

#[test]
fn bind_lock_suffix_without_a_number_is_no_lock() {
    let config = Config::from_text("75300 a ↑q-\n75400 b ↓q-abc");
    assert_eq!(config.tool(ToolCombo { first: ToolFirst::Up, tail: ToolTail::Switch }), Some(75300));
    assert_eq!(config.tool(ToolCombo { first: ToolFirst::Down, tail: ToolTail::Switch }), Some(75400));
    assert_eq!(config.tool_lock_secs(Some(75300)), None);
    assert!(config.bind_lock.entries.is_empty());
}

#[test]
fn first_bind_lock_of_a_tool_wins() {
    let config = Config::from_text("75300 a ↑q-0.3s/→q-0.9s");
    assert_eq!(text(&config.tool_lock_secs(Some(75300))), Some("0.3".to_string()));
    assert_eq!(config.tool(ToolCombo { first: ToolFirst::Right, tail: ToolTail::Switch }), Some(75300));
}

#[test]
fn rl_window_needs_a_positive_number() {
    let config = Config::from_text("# rl window: 0s");
    assert_eq!(config.rl_window_secs, None);
    assert_eq!(rl_combo_max_age(&config), 6);
    let config = Config::from_text("# rl window: abc");
    assert_eq!(config.rl_window_secs, None);
    let config = Config::from_text("# RL Window：0.5s");
    assert_eq!(text(&config.rl_window_secs), Some("0.5".to_string()));
    assert_eq!(rl_combo_max_age(&config), 30);
    let config = Config::from_text("# rl window: 9s");
    assert_eq!(rl_combo_max_age(&config), 120);
}

#[test]
fn later_comment_settings_override_earlier_ones() {
    let config = Config::from_text("# boot console: on\n# boot console: off\n# rl window: 0.2\n# rl window: 0.3");
    assert!(!config.boot_console);
    assert_eq!(text(&config.rl_window_secs), Some("0.3".to_string()));
}

#[test]
fn multi_lock_entry_forms() {
    let config = Config::from_text("# multi-hit window·Sabimaru: 0.5s\n# multi-hit window.shuriken: 0.25");
    assert_eq!(text(&config.tool_multi_lock_secs.get(ToolMultiLockCategory::Sabimaru)), Some("0.5".to_string()));
    assert_eq!(text(&config.tool_multi_lock_secs.get(ToolMultiLockCategory::Shuriken)), Some("0.25".to_string()));
    assert!(!config.tool_multi_lock_secs.contains_key(ToolMultiLockCategory::Umbrella));
}

#[test]
fn multi_lock_bulk_with_a_bad_part_sets_nothing() {
    let config = Config::from_text("# 多段触发时限: 手里剑 0s, 未知 1s");
    assert!(!config.tool_multi_lock_secs.contains_key(ToolMultiLockCategory::Shuriken));
    let config = Config::from_text("# multi-hit window: umbrella 0.3s，mist raven 0.4s, ");
    assert_eq!(text(&config.tool_multi_lock_secs.get(ToolMultiLockCategory::Umbrella)), Some("0.3".to_string()));
    assert_eq!(text(&config.tool_multi_lock_secs.get(ToolMultiLockCategory::MistRaven)), Some("0.4".to_string()));
    let config = Config::from_text("# multi-hit window: firecracker");
    assert!(!config.tool_multi_lock_secs.contains_key(ToolMultiLockCategory::Firecracker));
}

#[test]
fn uid_families_of_the_multi_lock() {
    assert_eq!(tool_uid_multi_lock_category(70000), Some(ToolMultiLockCategory::Shuriken));
    assert_eq!(tool_uid_multi_lock_category(70999), Some(ToolMultiLockCategory::Shuriken));
    assert_eq!(tool_uid_multi_lock_category(71500), Some(ToolMultiLockCategory::Firecracker));
    assert_eq!(tool_uid_multi_lock_category(74100), Some(ToolMultiLockCategory::MistRaven));
    assert_eq!(tool_uid_multi_lock_category(75300), Some(ToolMultiLockCategory::Sabimaru));
    assert_eq!(tool_uid_multi_lock_category(76999), Some(ToolMultiLockCategory::Umbrella));
    assert_eq!(tool_uid_multi_lock_category(72200), None);
    assert_eq!(tool_uid_multi_lock_category(77000), None);
}

#[test]
fn tool_first_from_art_tokens() {
    assert_eq!(ToolFirst::from_art(ArtToken::Up), ToolFirst::Up);
    assert_eq!(ToolFirst::from_art(ArtToken::Right), ToolFirst::Right);
    assert_eq!(ToolFirst::from_art(ArtToken::Down), ToolFirst::Down);
    assert_eq!(ToolFirst::from_art(ArtToken::Left), ToolFirst::Left);
    assert_eq!(ToolFirst::from_art(ArtToken::Block), ToolFirst::Block);
    assert_eq!(ToolFirst::from_art(ArtToken::Attack), ToolFirst::Attack);
    assert_eq!(ToolFirst::from_art(ArtToken::Interact), ToolFirst::Interact);
}

#[test]
fn crlf_lines_read_like_lf_lines() {
    let config = Config::from_text("# boot console: on\r\n7100 x ee\r\n70500 y t\r\n");
    assert!(config.boot_console);
    assert_eq!(config.art(ArtCombo::pair(ArtToken::Interact, ArtToken::Interact)), Some(7100));
    assert_eq!(config.tool_on_t, Some(70500));
}

#[test]
fn boot_console_comment_values() {
    assert_eq!(parse_boot_console_comment("#boot console：YES"), Some(true));
    assert_eq!(parse_boot_console_comment("## 启动信息print窗口 : 是"), Some(true));
    assert_eq!(parse_boot_console_comment("# boot console: maybe"), Some(false));
    assert_eq!(parse_boot_console_comment("# boot console"), None);
    assert_eq!(parse_boot_console_comment("boot console: on"), None);
    assert_eq!(parse_boot_console_comment("# rl window: 0.1"), None);
}

#[test]
fn boot_console_from_content_takes_the_first_setting() {
    assert!(boot_console_from_content("7100 x ee\n# boot console: on\n# boot console: off"));
    assert!(!boot_console_from_content("7100 x ee"));
    assert!(!boot_console_from_content(""));
}

#[test]
fn rl_window_rejects_values_that_read_as_zero() {
    let tiny_ok = format!("0.{}1", "0".repeat(44));
    let tiny_zero = format!("0.{}1", "0".repeat(45));
    let bound = "0.000000000000000000000000000000000000000000000700649232162408535461864791644958065640130970938257885878534141944895541342930300743319094181060791015625";
    let above = format!("{bound}1");
    for num in [tiny_ok.as_str(), tiny_zero.as_str(), bound, above.as_str(), "0.0", "00.5"] {
        let config = Config::from_text(&format!("# rl window: {num}s"));
        let positive = num.parse::<f32>().unwrap() > 0.0;
        assert_eq!(config.rl_window_secs.is_some(), positive, "{num}");
    }
    assert!(Config::from_text(&format!("# rl window: {tiny_ok}")).rl_window_secs.is_some());
    assert!(Config::from_text(&format!("# rl window: {tiny_zero}")).rl_window_secs.is_none());
    assert!(Config::from_text(&format!("# rl window: {bound}")).rl_window_secs.is_none());
    assert!(Config::from_text(&format!("# rl window: {above}")).rl_window_secs.is_some());
}

#[test]
fn appended_lines_never_rebind() {
    let s = "7000 a ↓l\n70500 b t\n74100 c q\n75300 d ↑t";
    let t = "7100 e ↓l\n70600 f t\n74200 g q\n75400 h ↑t\n7200 i ee";
    let a = Config::from_text(s);
    let b = Config::from_text(&format!("{s}\n{t}"));
    assert_eq!(b.art(ArtCombo::pair(ArtToken::Down, ArtToken::Attack)), a.art(ArtCombo::pair(ArtToken::Down, ArtToken::Attack)));
    assert_eq!(b.tool(ToolCombo { first: ToolFirst::Up, tail: ToolTail::Use }), Some(75300));
    assert_eq!(b.tool_on_t, a.tool_on_t);
    assert_eq!(b.tool_on_q, a.tool_on_q);
    assert_eq!(b.art(ArtCombo::pair(ArtToken::Interact, ArtToken::Interact)), Some(7200));
}

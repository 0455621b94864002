use battle_instinct::boot::{chainload_order, mod_dll_note, mod_dll_report, on_dinput_attach, on_early_attach, BootLine, BootStep};

fn names(v: &[&str]) -> Vec<String> {
    v.iter().map(|s| s.to_string()).collect()
}

#[test]
fn early_attach_scans_once() {
    assert_eq!(
        on_early_attach(false),
        vec![
            BootStep::Print(BootLine::ProcessStarted),
            BootStep::Print(BootLine::ScanningGameDir),
            BootStep::ScanModDlls,
            BootStep::Print(BootLine::ModEngineLoading),
            BootStep::Print(BootLine::WaitingForDinput),
        ]
    );
    assert!(on_early_attach(true).is_empty());
}

#[test]
fn dinput_attach_scans_only_when_not_done_and_always_announces() {
    assert_eq!(
        on_dinput_attach(false),
        vec![
            BootStep::Print(BootLine::ProcessStarted),
            BootStep::Print(BootLine::ScanningGameDir),
            BootStep::ScanModDlls,
            BootStep::Print(BootLine::Injected),
        ]
    );
    assert_eq!(on_dinput_attach(true), vec![BootStep::Print(BootLine::Injected)]);
}

#[test]
fn boot_line_texts() {
    assert_eq!(BootLine::ProcessStarted.text(), "Sekiro 进程已启动");
    assert_eq!(BootLine::ScanningGameDir.text(), "正在扫描游戏目录 MOD…");
    assert_eq!(BootLine::WaitingForDinput.text(), "等待 dinput8.dll 注入 Battle Instinct…");
    assert_eq!(BootLine::Injected.text(), "Battle Instinct (dinput8.dll) 已注入，开始初始化…");
}

#[test]
fn mod_dll_notes() {
    assert_eq!(mod_dll_note(&"DINPUT8.dll".to_string()), "Battle Instinct 入口");
    assert_eq!(mod_dll_note(&"modengine2_launcher.dll".to_string()), "Mod Engine");
    assert_eq!(mod_dll_note(&"Version.DLL".to_string()), "Battle Instinct 预加载");
    assert_eq!(mod_dll_note(&"dinput8_other.dll".to_string()), "链式兼容 MOD");
    assert_eq!(mod_dll_note(&"other.dll".to_string()), "");
}

#[test]
fn report_lists_mod_dlls_sorted_case_insensitively() {
    let found = names(&["readme.txt", "version.dll", "Dinput8_b.dll", "dinput8.dll", "d3d11.dll", "ModEngine2.dll", "dinput8_A.DLL"]);
    assert_eq!(
        mod_dll_report(Some(&found)),
        names(&[
            "检测到以下 MOD DLL：",
            "  · dinput8.dll  (Battle Instinct 入口)",
            "  · dinput8_A.DLL  (链式兼容 MOD)",
            "  · Dinput8_b.dll  (链式兼容 MOD)",
            "  · ModEngine2.dll  (Mod Engine)",
            "  · version.dll  (Battle Instinct 预加载)",
        ])
    );
}

#[test]
fn report_keeps_the_order_of_equal_names() {
    let found = names(&["DINPUT8_X.dll", "dinput8_x.dll"]);
    assert_eq!(
        mod_dll_report(Some(&found)),
        names(&["检测到以下 MOD DLL：", "  · DINPUT8_X.dll  (链式兼容 MOD)", "  · dinput8_x.dll  (链式兼容 MOD)"])
    );
}

#[test]
fn report_without_mod_dlls_or_directory() {
    assert_eq!(
        mod_dll_report(Some(&names(&["d3d11.dll", "dinput8.txt"]))),
        names(&["  （未检测到 dinput8 / Mod Engine 相关 DLL）"])
    );
    assert_eq!(mod_dll_report(None), names(&["  （无法读取游戏目录）"]));
}

#[test]
fn chainload_order_takes_dinput8_underscore_dlls_sorted() {
    let found = names(&["dinput8_z.dll", "dinput8.dll", "Dinput8_a.dll", "dinput8_b.DLL", "dinput8_B.dll", "dinput8_a.dll", "x.dll"]);
    assert_eq!(chainload_order(&found), names(&["dinput8_B.dll", "dinput8_a.dll", "dinput8_z.dll"]));
    assert!(chainload_order(&names(&[])).is_empty());
}

#[test]
fn a_run_of_attach_calls_scans_once() {
    let mut steps = on_early_attach(false);
    steps.extend(on_dinput_attach(true));
    steps.extend(on_dinput_attach(true));
    assert_eq!(steps.iter().filter(|s| **s == BootStep::ScanModDlls).count(), 1);
    assert_eq!(steps.last(), Some(&BootStep::Print(BootLine::Injected)));
}

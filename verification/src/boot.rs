//! What the boot console shows while the game starts and the mod is injected.
//!
//! The host opens the console, swaps its "scan done" flag, and performs the
//! steps returned here in order; for a scan it lists the game directory and
//! prints [`mod_dll_report`] of the names it found.
use vstd::prelude::*;

use crate::text::{chars_of, lower, lower_exec, same_chars, slice_of, starts_with, starts_with_exec};

verus! {

/// A message of the boot console.
#[derive(Clone, Copy, PartialEq, Eq, Structural, Debug)]
pub enum BootLine {
    ProcessStarted,
    ScanningGameDir,
    ModEngineLoading,
    WaitingForDinput,
    Injected,
}

/// One thing for the host to do.
#[derive(Clone, Copy, PartialEq, Eq, Structural, Debug)]
pub enum BootStep {
    Print(BootLine),
    /// List the game directory and print `mod_dll_report` of it.
    ScanModDlls,
}

pub open spec fn boot_text(l: BootLine) -> Seq<char> {
    match l {
        BootLine::ProcessStarted => "Sekiro 进程已启动"@,
        BootLine::ScanningGameDir => "正在扫描游戏目录 MOD…"@,
        BootLine::ModEngineLoading => "Mod Engine 正在后台加载（其调试输出不会显示在此窗口）"@,
        BootLine::WaitingForDinput => "等待 dinput8.dll 注入 Battle Instinct…"@,
        BootLine::Injected => "Battle Instinct (dinput8.dll) 已注入，开始初始化…"@,
    }
}

impl BootLine {
    /// The text of the message.
    pub fn text(&self) -> (r: String)
        ensures
            r@ == boot_text(*self),
    {
        match self {
            BootLine::ProcessStarted => String::from_str("Sekiro 进程已启动"),
            BootLine::ScanningGameDir => String::from_str("正在扫描游戏目录 MOD…"),
            BootLine::ModEngineLoading => String::from_str(
                "Mod Engine 正在后台加载（其调试输出不会显示在此窗口）",
            ),
            BootLine::WaitingForDinput => String::from_str("等待 dinput8.dll 注入 Battle Instinct…"),
            BootLine::Injected => String::from_str("Battle Instinct (dinput8.dll) 已注入，开始初始化…"),
        }
    }
}

pub open spec fn early_attach_steps(already_scanned: bool) -> Seq<BootStep> {
    if already_scanned {
        seq![]
    } else {
        seq![
            BootStep::Print(BootLine::ProcessStarted),
            BootStep::Print(BootLine::ScanningGameDir),
            BootStep::ScanModDlls,
            BootStep::Print(BootLine::ModEngineLoading),
            BootStep::Print(BootLine::WaitingForDinput),
        ]
    }
}

pub open spec fn dinput_attach_steps(already_scanned: bool) -> Seq<BootStep> {
    if already_scanned {
        seq![BootStep::Print(BootLine::Injected)]
    } else {
        seq![
            BootStep::Print(BootLine::ProcessStarted),
            BootStep::Print(BootLine::ScanningGameDir),
            BootStep::ScanModDlls,
            BootStep::Print(BootLine::Injected),
        ]
    }
}

/// Called from `version.dll` as early as the game process starts. Given
/// whether the scan flag was already set, the steps to perform; the scan is
/// done only when it was not.
pub fn on_early_attach(already_scanned: bool) -> (r: Vec<BootStep>)
    ensures
        r@ == early_attach_steps(already_scanned),
{
    let mut r: Vec<BootStep> = Vec::new();
    if already_scanned {
        return r;
    }
    r.push(BootStep::Print(BootLine::ProcessStarted));
    r.push(BootStep::Print(BootLine::ScanningGameDir));
    r.push(BootStep::ScanModDlls);
    r.push(BootStep::Print(BootLine::ModEngineLoading));
    r.push(BootStep::Print(BootLine::WaitingForDinput));
    assert(r@ =~= early_attach_steps(already_scanned));
    r
}

/// Called from `dinput8.dll` when DirectInput is first loaded. Given whether
/// the scan flag was already set, the steps to perform.
pub fn on_dinput_attach(already_scanned: bool) -> (r: Vec<BootStep>)
    ensures
        r@ == dinput_attach_steps(already_scanned),
{
    let mut r: Vec<BootStep> = Vec::new();
    if !already_scanned {
        r.push(BootStep::Print(BootLine::ProcessStarted));
        r.push(BootStep::Print(BootLine::ScanningGameDir));
        r.push(BootStep::ScanModDlls);
    }
    r.push(BootStep::Print(BootLine::Injected));
    assert(r@ =~= dinput_attach_steps(already_scanned));
    r
}

//----------------------------------------------------------------------------
//  The mod DLL report
//----------------------------------------------------------------------------

pub open spec fn ends_with(s: Seq<char>, p: Seq<char>) -> bool {
    p.len() <= s.len() && s.skip(s.len() - p.len()) == p
}

pub open spec fn contains_text(s: Seq<char>, p: Seq<char>) -> bool {
    exists|i: int| 0 <= i && i + p.len() <= s.len() && #[trigger] s.subrange(i, i + p.len()) == p
}

/// A DLL name (lower-cased) that belongs to the mod or to a mod loader.
pub open spec fn is_mod_dll(lower_name: Seq<char>) -> bool {
    &&& ends_with(lower_name, ".dll"@)
    &&& (lower_name == "dinput8.dll"@ || starts_with(lower_name, "dinput8_"@) || contains_text(
        lower_name,
        "modengine"@,
    ) || lower_name == "version.dll"@)
}

/// The note printed after a DLL name.
pub open spec fn dll_note(name: Seq<char>) -> Seq<char> {
    let l = lower(name);
    if l == "dinput8.dll"@ {
        "Battle Instinct 入口"@
    } else if contains_text(l, "modengine"@) {
        "Mod Engine"@
    } else if l == "version.dll"@ {
        "Battle Instinct 预加载"@
    } else if starts_with(l, "dinput8_"@) {
        "链式兼容 MOD"@
    } else {
        ""@
    }
}

/// `a` comes before `b` in code-point order (the byte order of their UTF-8).
pub open spec fn lex_lt(a: Seq<char>, b: Seq<char>) -> bool
    decreases a.len(),
{
    if a.len() == 0 {
        b.len() > 0
    } else if b.len() == 0 {
        false
    } else if a[0] != b[0] {
        (a[0] as u32) < (b[0] as u32)
    } else {
        lex_lt(a.drop_first(), b.drop_first())
    }
}

/// The key a name is sorted by: its lower-cased form when `fold`, else itself.
pub open spec fn sort_key(name: Seq<char>, fold: bool) -> Seq<char> {
    if fold {
        lower(name)
    } else {
        name
    }
}

/// Insert `x` after every element whose key is not above its key.
pub open spec fn insert_sorted(s: Seq<Seq<char>>, x: Seq<char>, fold: bool) -> Seq<Seq<char>>
    decreases s.len(),
{
    if s.len() == 0 {
        seq![x]
    } else if !lex_lt(sort_key(x, fold), sort_key(s.last(), fold)) {
        s.push(x)
    } else {
        insert_sorted(s.drop_last(), x, fold).push(s.last())
    }
}

/// The names sorted by their keys, equal keys keeping their order.
pub open spec fn sort_names(s: Seq<Seq<char>>, fold: bool) -> Seq<Seq<char>>
    decreases s.len(),
{
    if s.len() == 0 {
        s
    } else {
        insert_sorted(sort_names(s.drop_last(), fold), s.last(), fold)
    }
}

/// The names that are mod DLLs, in order.
pub open spec fn mod_dlls(names: Seq<Seq<char>>) -> Seq<Seq<char>>
    decreases names.len(),
{
    if names.len() == 0 {
        names
    } else if is_mod_dll(lower(names.last())) {
        mod_dlls(names.drop_last()).push(names.last())
    } else {
        mod_dlls(names.drop_last())
    }
}

pub open spec fn dll_line(name: Seq<char>) -> Seq<char> {
    let note = dll_note(name);
    if note.len() == 0 {
        "  · "@ + name
    } else {
        "  · "@ + name + "  ("@ + note + ")"@
    }
}

/// The lines that report the mod DLLs among the names of the game directory;
/// `None` when the directory could not be read.
pub open spec fn report_lines(names: Option<Seq<Seq<char>>>) -> Seq<Seq<char>> {
    match names {
        None => seq!["  （无法读取游戏目录）"@],
        Some(ns) => {
            let found = sort_names(mod_dlls(ns), true);
            if found.len() == 0 {
                seq!["  （未检测到 dinput8 / Mod Engine 相关 DLL）"@]
            } else {
                seq!["检测到以下 MOD DLL："@] + found.map_values(|n: Seq<char>| dll_line(n))
            }
        },
    }
}

pub open spec fn string_views(v: Seq<String>) -> Seq<Seq<char>> {
    v.map_values(|s: String| s@)
}

fn ends_with_exec(s: &Vec<char>, p: &Vec<char>) -> (r: bool)
    ensures
        r == ends_with(s@, p@),
{
    if p.len() > s.len() {
        return false;
    }
    let tail = slice_of(s, s.len() - p.len(), s.len());
    same_chars(&tail, p)
}

fn contains_text_exec(s: &Vec<char>, p: &Vec<char>) -> (r: bool)
    ensures
        r == contains_text(s@, p@),
{
    if p.len() > s.len() {
        return false;
    }
    if p.len() == 0 {
        assert(s@.subrange(0int, 0int + p@.len()) =~= p@);
        return true;
    }
    let mut i: usize = 0;
    let last = s.len() - p.len();
    while i <= last
        invariant
            0 < p.len() <= s.len(),
            last == s.len() - p.len(),
            i <= last + 1,
            forall|j: int| 0 <= j < i ==> #[trigger] s@.subrange(j, j + p@.len()) != p@,
        decreases last + 1 - i,
    {
        let piece = slice_of(s, i, i + p.len());
        if same_chars(&piece, p) {
            return true;
        }
        i = i + 1;
    }
    proof {
        assert forall|j: int| 0 <= j && j + p@.len() <= s@.len() implies #[trigger] s@.subrange(
            j,
            j + p@.len(),
        ) != p@ by {
            assert(j < i);
        }
    }
    false
}

fn is_mod_dll_exec(l: &Vec<char>) -> (r: bool)
    ensures
        r == is_mod_dll(l@),
{
    let dll = chars_of(".dll");
    if !ends_with_exec(l, &dll) {
        return false;
    }
    let d8 = chars_of("dinput8.dll");
    let d8p = chars_of("dinput8_");
    let me = chars_of("modengine");
    let ver = chars_of("version.dll");
    same_chars(l, &d8) || starts_with_exec(l, &d8p) || contains_text_exec(l, &me) || same_chars(
        l,
        &ver,
    )
}

fn lower_of(name: &String) -> (r: Vec<char>)
    ensures
        r@ == lower(name@),
{
    let c = chars_of(name.as_str());
    lower_exec(&c)
}

/// The note of a mod DLL name.
pub fn mod_dll_note(name: &String) -> (r: &'static str)
    ensures
        r@ == dll_note(name@),
{
    let l = lower_of(name);
    let d8 = chars_of("dinput8.dll");
    let me = chars_of("modengine");
    let ver = chars_of("version.dll");
    let d8p = chars_of("dinput8_");
    if same_chars(&l, &d8) {
        "Battle Instinct 入口"
    } else if contains_text_exec(&l, &me) {
        "Mod Engine"
    } else if same_chars(&l, &ver) {
        "Battle Instinct 预加载"
    } else if starts_with_exec(&l, &d8p) {
        "链式兼容 MOD"
    } else {
        ""
    }
}

fn lex_lt_exec(a: &Vec<char>, b: &Vec<char>) -> (r: bool)
    ensures
        r == lex_lt(a@, b@),
{
    let mut i: usize = 0;
    proof {
        lemma_lex_lt_skip0(a@, b@);
    }
    while i < a.len() && i < b.len() && a[i] == b[i]
        invariant
            i <= a.len(),
            i <= b.len(),
            lex_lt(a@, b@) == lex_lt(a@.skip(i as int), b@.skip(i as int)),
        decreases a.len() - i,
    {
        assert(a@.skip(i as int).drop_first() =~= a@.skip(i + 1));
        assert(b@.skip(i as int).drop_first() =~= b@.skip(i + 1));
        i = i + 1;
    }
    if i == a.len() {
        assert(a@.skip(i as int).len() == 0);
        i < b.len()
    } else if i == b.len() {
        assert(b@.skip(i as int).len() == 0);
        false
    } else {
        assert(a@.skip(i as int)[0] == a@[i as int]);
        assert(b@.skip(i as int)[0] == b@[i as int]);
        (a[i] as u32) < (b[i] as u32)
    }
}

proof fn lemma_lex_lt_skip0(a: Seq<char>, b: Seq<char>)
    ensures
        lex_lt(a, b) == lex_lt(a.skip(0), b.skip(0)),
{
    assert(a.skip(0) =~= a);
    assert(b.skip(0) =~= b);
}

/// Inserting at position `j` is `insert_sorted` when every element from `j`
/// on has a key above `x`'s and the element before `j` does not.
proof fn lemma_insert_sorted_at(s: Seq<Seq<char>>, x: Seq<char>, j: int, fold: bool)
    requires
        0 <= j <= s.len(),
        forall|k: int| j <= k < s.len() ==> lex_lt(sort_key(x, fold), sort_key(#[trigger] s[k], fold)),
        j > 0 ==> !lex_lt(sort_key(x, fold), sort_key(s[j - 1], fold)),
    ensures
        insert_sorted(s, x, fold) == s.insert(j, x),
    decreases s.len(),
{
    if s.len() == 0 {
        assert(s.insert(j, x) =~= seq![x]);
    } else if j == s.len() {
        assert(s.insert(j, x) =~= s.push(x));
    } else {
        assert(lex_lt(sort_key(x, fold), sort_key(s[s.len() - 1], fold)));
        let t = s.drop_last();
        assert forall|k: int| j <= k < t.len() implies lex_lt(sort_key(x, fold), sort_key(#[trigger] t[k], fold)) by {
            assert(t[k] == s[k]);
        }
        lemma_insert_sorted_at(t, x, j, fold);
        assert(s.insert(j, x) =~= t.insert(j, x).push(s.last()));
    }
}

fn clone_string(s: &String) -> (r: String)
    ensures
        r@ == s@,
{
    s.clone()
}

fn key_of(name: &String, fold: bool) -> (r: Vec<char>)
    ensures
        r@ == sort_key(name@, fold),
{
    if fold {
        lower_of(name)
    } else {
        chars_of(name.as_str())
    }
}

/// A stable insertion sort of the names by their keys.
fn sort_names_exec(names: &Vec<String>, fold: bool) -> (r: Vec<String>)
    ensures
        string_views(r@) == sort_names(string_views(names@), fold),
{
    let ghost ks = string_views(names@);
    let mut sorted: Vec<String> = Vec::new();
    let mut i: usize = 0;
    while i < names.len()
        invariant
            i <= names.len(),
            ks == string_views(names@),
            string_views(sorted@) == sort_names(ks.take(i as int), fold),
            sorted@.len() == i,
        decreases names.len() - i,
    {
        assert(ks.take(i + 1).drop_last() =~= ks.take(i as int));
        assert(ks.take(i + 1).last() == names@[i as int]@);
        let x = clone_string(&names[i]);
        let kx = key_of(&x, fold);
        let ghost sv = string_views(sorted@);
        let mut j: usize = sorted.len();
        while j > 0 && lex_lt_exec(&kx, &key_of(&sorted[j - 1], fold))
            invariant
                j <= sorted@.len(),
                sv == string_views(sorted@),
                kx@ == sort_key(x@, fold),
                forall|k: int| j <= k < sv.len() ==> lex_lt(sort_key(x@, fold), sort_key(#[trigger] sv[k], fold)),
            decreases j,
        {
            j = j - 1;
        }
        proof {
            if j > 0 {
                assert(sv[j - 1] == sorted@[j - 1]@);
            }
            lemma_insert_sorted_at(sv, x@, j as int, fold);
        }
        sorted.insert(j, x);
        assert(string_views(sorted@) =~= sv.insert(j as int, names@[i as int]@));
        i = i + 1;
    }
    assert(ks.take(i as int) =~= ks);
    sorted
}

/// The report lines for the names of the game directory (`None` when it could
/// not be read): a header and one line per mod DLL, sorted case-insensitively,
/// or a line saying that there is none.
pub fn mod_dll_report(names: Option<&Vec<String>>) -> (r: Vec<String>)
    ensures
        string_views(r@) == report_lines(
            match names {
                Some(v) => Some(string_views(v@)),
                None => None,
            },
        ),
{
    let names = match names {
        None => {
            let mut r: Vec<String> = Vec::new();
            r.push(String::from_str("  （无法读取游戏目录）"));
            assert(string_views(r@) =~= seq!["  （无法读取游戏目录）"@]);
            return r;
        },
        Some(v) => v,
    };
    let ghost ns = string_views(names@);
    // Keep the mod DLLs.
    let mut kept: Vec<String> = Vec::new();
    let mut i: usize = 0;
    while i < names.len()
        invariant
            i <= names.len(),
            ns == string_views(names@),
            string_views(kept@) == mod_dlls(ns.take(i as int)),
        decreases names.len() - i,
    {
        assert(ns.take(i + 1).drop_last() =~= ns.take(i as int));
        assert(ns.take(i + 1).last() == names@[i as int]@);
        let l = lower_of(&names[i]);
        if is_mod_dll_exec(&l) {
            let ghost old_k = string_views(kept@);
            kept.push(clone_string(&names[i]));
            assert(string_views(kept@) =~= old_k.push(names@[i as int]@));
        }
        i = i + 1;
    }
    assert(ns.take(i as int) =~= ns);
    let sorted = sort_names_exec(&kept, true);
    let mut r: Vec<String> = Vec::new();
    if sorted.len() == 0 {
        r.push(String::from_str("  （未检测到 dinput8 / Mod Engine 相关 DLL）"));
        assert(string_views(r@) =~= seq!["  （未检测到 dinput8 / Mod Engine 相关 DLL）"@]);
        return r;
    }
    r.push(String::from_str("检测到以下 MOD DLL："));
    let ghost found = string_views(sorted@);
    let mut i: usize = 0;
    while i < sorted.len()
        invariant
            i <= sorted.len(),
            found == string_views(sorted@),
            string_views(r@) == seq!["检测到以下 MOD DLL："@] + found.take(i as int).map_values(
                |n: Seq<char>| dll_line(n),
            ),
        decreases sorted.len() - i,
    {
        let name = &sorted[i];
        let note = mod_dll_note(name);
        let mut line = String::from_str("  · ");
        line.append(name.as_str());
        if !note.is_empty() {
            line.append("  (");
            line.append(note);
            line.append(")");
        }
        assert(line@ == dll_line(found[i as int]));
        let ghost old_r = string_views(r@);
        r.push(line);
        assert(string_views(r@) =~= old_r.push(dll_line(found[i as int])));
        assert(found.take(i + 1).map_values(|n: Seq<char>| dll_line(n)) =~= found.take(
            i as int,
        ).map_values(|n: Seq<char>| dll_line(n)).push(dll_line(found[i as int])));
        i = i + 1;
    }
    assert(found.take(i as int) =~= found);
    r
}


//----------------------------------------------------------------------------
//  Chain-loading other `dinput8_*.dll` mods
//----------------------------------------------------------------------------

/// A DLL that is chain-loaded: `dinput8_….dll`, matched case-sensitively.
pub open spec fn is_chain_dll(name: Seq<char>) -> bool {
    starts_with(name, "dinput8_"@) && ends_with(name, ".dll"@)
}

/// The names that are chain-loaded, in order.
pub open spec fn chain_dlls(names: Seq<Seq<char>>) -> Seq<Seq<char>>
    decreases names.len(),
{
    if names.len() == 0 {
        names
    } else if is_chain_dll(names.last()) {
        chain_dlls(names.drop_last()).push(names.last())
    } else {
        chain_dlls(names.drop_last())
    }
}

/// The DLLs of the game directory to chain-load, in loading order: the
/// `dinput8_*.dll` names, sorted by code point.
pub fn chainload_order(names: &Vec<String>) -> (r: Vec<String>)
    ensures
        string_views(r@) == sort_names(chain_dlls(string_views(names@)), false),
{
    let ghost ns = string_views(names@);
    let d8p = chars_of("dinput8_");
    let dll = chars_of(".dll");
    let mut kept: Vec<String> = Vec::new();
    let mut i: usize = 0;
    while i < names.len()
        invariant
            i <= names.len(),
            ns == string_views(names@),
            d8p@ == "dinput8_"@,
            dll@ == ".dll"@,
            string_views(kept@) == chain_dlls(ns.take(i as int)),
        decreases names.len() - i,
    {
        assert(ns.take(i + 1).drop_last() =~= ns.take(i as int));
        assert(ns.take(i + 1).last() == names@[i as int]@);
        let c = chars_of(names[i].as_str());
        if starts_with_exec(&c, &d8p) && ends_with_exec(&c, &dll) {
            let ghost old_k = string_views(kept@);
            kept.push(clone_string(&names[i]));
            assert(string_views(kept@) =~= old_k.push(names@[i as int]@));
        }
        i = i + 1;
    }
    assert(ns.take(i as int) =~= ns);
    sort_names_exec(&kept, false)
}

} // verus!

verus! {

/// How many directory scans the steps hold.
pub open spec fn scan_count(steps: Seq<BootStep>) -> nat
    decreases steps.len(),
{
    if steps.len() == 0 {
        0
    } else {
        scan_count(steps.drop_last()) + if steps.last() == BootStep::ScanModDlls {
            1nat
        } else {
            0nat
        }
    }
}

/// Either entry point scans the game directory exactly when the shared scan
/// flag was not yet set; as the host sets the flag on every call, the
/// directory is scanned once per process, by whichever entry point runs first.
pub proof fn law_scan_once(already_scanned: bool)
    ensures
        scan_count(early_attach_steps(already_scanned)) == (if already_scanned {
            0nat
        } else {
            1nat
        }),
        scan_count(dinput_attach_steps(already_scanned)) == (if already_scanned {
            0nat
        } else {
            1nat
        }),
{
    reveal_with_fuel(scan_count, 6);
}

/// The injection of `dinput8.dll` is always announced, last.
pub proof fn law_dinput_attach_announced(already_scanned: bool)
    ensures
        dinput_attach_steps(already_scanned).last() == BootStep::Print(BootLine::Injected),
{
}

/// One call of a boot entry point.
pub enum AttachCall {
    /// `on_early_attach`, from `version.dll`.
    Early,
    /// `on_dinput_attach`, from `dinput8.dll`.
    Dinput,
}

/// The steps of one call, given whether the scan flag was already set.
pub open spec fn attach_steps(c: AttachCall, already_scanned: bool) -> Seq<BootStep> {
    match c {
        AttachCall::Early => early_attach_steps(already_scanned),
        AttachCall::Dinput => dinput_attach_steps(already_scanned),
    }
}

/// The steps of a run of calls in one process, in the order their swaps of
/// the shared scan flag took effect: the first call finds it unset, every
/// later one finds it set.
pub open spec fn boot_run(calls: Seq<AttachCall>) -> Seq<BootStep>
    decreases calls.len(),
{
    if calls.len() == 0 {
        Seq::empty()
    } else {
        boot_run(calls.drop_last()) + attach_steps(calls.last(), calls.len() > 1)
    }
}

proof fn lemma_scan_count_add(a: Seq<BootStep>, b: Seq<BootStep>)
    ensures
        scan_count(a + b) == scan_count(a) + scan_count(b),
    decreases b.len(),
{
    if b.len() == 0 {
        assert(a + b =~= a);
    } else {
        lemma_scan_count_add(a, b.drop_last());
        assert((a + b).drop_last() =~= a + b.drop_last());
    }
}

/// Over any run of entry-point calls in one process, the game directory is
/// scanned exactly once (by the first call), and every `dinput8.dll` call
/// announces the injection as its last step.
pub proof fn law_scanned_once_per_process(calls: Seq<AttachCall>)
    ensures
        scan_count(boot_run(calls)) == (if calls.len() == 0 {
            0nat
        } else {
            1nat
        }),
        forall|i: int|
            0 <= i < calls.len() && #[trigger] calls[i] == AttachCall::Dinput ==> attach_steps(calls[i], i > 0).last()
                == BootStep::Print(BootLine::Injected),
    decreases calls.len(),
{
    if calls.len() > 0 {
        lemma_scan_once_run(calls);
    }
}

proof fn lemma_scan_once_run(calls: Seq<AttachCall>)
    requires
        calls.len() > 0,
    ensures
        scan_count(boot_run(calls)) == 1,
    decreases calls.len(),
{
    let prev = calls.drop_last();
    lemma_scan_count_add(boot_run(prev), attach_steps(calls.last(), calls.len() > 1));
    law_scan_once(calls.len() > 1);
    if calls.len() > 1 {
        lemma_scan_once_run(prev);
    } else {
        assert(boot_run(prev) == Seq::<BootStep>::empty());
        reveal_with_fuel(scan_count, 1);
    }
}

} // verus!


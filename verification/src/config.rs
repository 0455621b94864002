//! The cfg file: combat-art binds, prosthetic binds and comment settings.
use vstd::prelude::*;

use crate::binds::{bind_get, bind_insert, keys_unique, lemma_bind_insert_unique, Binds};
use crate::cfg_meta::{
    boot_console_of, boot_console_of_chars, colon_piece1, colon_piece1_exec, comment_body,
    comment_body_exec, comment_key, comment_key_exec,
};
use crate::input::{art_code, ArtCombo, ArtToken};
use crate::text::{
    chars_of, copy_chars, eq_lit, f32_positive, f32_positive_exec, find_first, find_first_exec, find_last, find_last_exec, float_text_ok,
    float_text_ok_exec, has_nonzero_digit, has_nonzero_digit_exec, lemma_find_first,
    lemma_find_last, lines_exec, lines_of, lower, lower_exec, numeric_prefix, numeric_prefix_exec,
    opt_view, parse_u32, parse_u32_exec, slice_of, split_all, split_all_exec, starts_with,
    starts_with_exec, strip_prefix_all, strip_prefix_all_exec, trim, trim_exec, views, words,
    words_exec, Cls,
};

verus! {

pub const COMBAT_ART_UID_MIN: u32 = 5000;
pub const COMBAT_ART_UID_MAX: u32 = 10000;
pub const PROSTHETIC_TOOL_UID_MIN: u32 = 70000;
pub const PROSTHETIC_TOOL_UID_MAX: u32 = 100000;

/// Tail key of a prosthetic combo: `q` = switch, `t` = use.
#[derive(Clone, Copy, PartialEq, Eq, Structural, Debug)]
pub enum ToolTail {
    /// In-game "switch prosthetic".
    Switch,
    /// In-game "use prosthetic".
    Use,
}

/// First key of a prosthetic combo. `t` cannot be first; `q` can.
#[derive(Clone, Copy, PartialEq, Eq, Structural, Debug)]
pub enum ToolFirst {
    Up,
    Right,
    Down,
    Left,
    Block,
    Attack,
    Interact,
    /// `q` as first key (e.g. `qt`).
    Switch,
}

/// First key (direction / r / l / e / q) then tail (`q` / `t`).
#[derive(Clone, Copy, PartialEq, Eq, Structural, Debug)]
pub struct ToolCombo {
    pub first: ToolFirst,
    pub tail: ToolTail,
}

/// Prosthetic families for `# 多段触发时限` (UID ranges of a thousand).
#[derive(Clone, Copy, PartialEq, Eq, Structural, Debug)]
pub enum ToolMultiLockCategory {
    Shuriken,
    Umbrella,
    MistRaven,
    Firecracker,
    Sabimaru,
}

/// A prosthetic bind: bare `t`, bare `q`, or a two-key combo.
#[derive(Clone, Copy, PartialEq, Eq, Structural, Debug)]
pub enum ToolMotion {
    TAlone,
    QAlone,
    Combo(ToolCombo),
}

pub open spec fn first_from_art(t: ArtToken) -> ToolFirst {
    match t {
        ArtToken::Up => ToolFirst::Up,
        ArtToken::Right => ToolFirst::Right,
        ArtToken::Down => ToolFirst::Down,
        ArtToken::Left => ToolFirst::Left,
        ArtToken::Block => ToolFirst::Block,
        ArtToken::Attack => ToolFirst::Attack,
        ArtToken::Interact => ToolFirst::Interact,
    }
}

impl ToolFirst {
    /// The prosthetic first key that a combat-art token stands for.
    pub fn from_art(token: ArtToken) -> (r: ToolFirst)
        ensures
            r == first_from_art(token),
    {
        match token {
            ArtToken::Up => ToolFirst::Up,
            ArtToken::Right => ToolFirst::Right,
            ArtToken::Down => ToolFirst::Down,
            ArtToken::Left => ToolFirst::Left,
            ArtToken::Block => ToolFirst::Block,
            ArtToken::Attack => ToolFirst::Attack,
            ArtToken::Interact => ToolFirst::Interact,
        }
    }
}

pub open spec fn first_index(f: ToolFirst) -> u8 {
    match f {
        ToolFirst::Up => 0,
        ToolFirst::Right => 1,
        ToolFirst::Down => 2,
        ToolFirst::Left => 3,
        ToolFirst::Block => 4,
        ToolFirst::Attack => 5,
        ToolFirst::Interact => 6,
        ToolFirst::Switch => 7,
    }
}

/// A number that names the prosthetic combo: `2 * first + tail`.
pub open spec fn tool_code(k: ToolCombo) -> u8 {
    (2 * first_index(k.first) + match k.tail {
        ToolTail::Switch => 0u8,
        ToolTail::Use => 1u8,
    }) as u8
}

/// Distinct prosthetic combos never share a bind: the key a combo is bound
/// under names that combo alone.
pub proof fn law_tool_code_injective(x: ToolCombo, y: ToolCombo)
    ensures
        tool_code(x) == tool_code(y) ==> x == y,
{
}

impl ToolCombo {
    pub fn code(&self) -> (r: u8)
        ensures
            r == tool_code(*self),
    {
        let f: u8 = match self.first {
            ToolFirst::Up => 0,
            ToolFirst::Right => 1,
            ToolFirst::Down => 2,
            ToolFirst::Left => 3,
            ToolFirst::Block => 4,
            ToolFirst::Attack => 5,
            ToolFirst::Interact => 6,
            ToolFirst::Switch => 7,
        };
        let t: u8 = match self.tail {
            ToolTail::Switch => 0,
            ToolTail::Use => 1,
        };
        2 * f + t
    }
}

/// The family whose multi-hit lock applies to a prosthetic UID.
pub open spec fn uid_category(uid: u32) -> Option<ToolMultiLockCategory> {
    if 70000 <= uid <= 70999 {
        Some(ToolMultiLockCategory::Shuriken)
    } else if 71000 <= uid <= 71999 {
        Some(ToolMultiLockCategory::Firecracker)
    } else if 74000 <= uid <= 74999 {
        Some(ToolMultiLockCategory::MistRaven)
    } else if 75000 <= uid <= 75999 {
        Some(ToolMultiLockCategory::Sabimaru)
    } else if 76000 <= uid <= 76999 {
        Some(ToolMultiLockCategory::Umbrella)
    } else {
        None
    }
}

pub fn tool_uid_multi_lock_category(uid: u32) -> (r: Option<ToolMultiLockCategory>)
    ensures
        r == uid_category(uid),
{
    if 70000 <= uid && uid <= 70999 {
        Some(ToolMultiLockCategory::Shuriken)
    } else if 71000 <= uid && uid <= 71999 {
        Some(ToolMultiLockCategory::Firecracker)
    } else if 74000 <= uid && uid <= 74999 {
        Some(ToolMultiLockCategory::MistRaven)
    } else if 75000 <= uid && uid <= 75999 {
        Some(ToolMultiLockCategory::Sabimaru)
    } else if 76000 <= uid && uid <= 76999 {
        Some(ToolMultiLockCategory::Umbrella)
    } else {
        None
    }
}

/// Multi-hit lock seconds per family, as the numeric text of the cfg.
pub struct LockModel {
    pub shuriken: Option<Seq<char>>,
    pub umbrella: Option<Seq<char>>,
    pub mist_raven: Option<Seq<char>>,
    pub firecracker: Option<Seq<char>>,
    pub sabimaru: Option<Seq<char>>,
}

pub open spec fn lock_get(m: LockModel, c: ToolMultiLockCategory) -> Option<Seq<char>> {
    match c {
        ToolMultiLockCategory::Shuriken => m.shuriken,
        ToolMultiLockCategory::Umbrella => m.umbrella,
        ToolMultiLockCategory::MistRaven => m.mist_raven,
        ToolMultiLockCategory::Firecracker => m.firecracker,
        ToolMultiLockCategory::Sabimaru => m.sabimaru,
    }
}

pub open spec fn lock_set(m: LockModel, c: ToolMultiLockCategory, v: Seq<char>) -> LockModel {
    match c {
        ToolMultiLockCategory::Shuriken => LockModel { shuriken: Some(v), ..m },
        ToolMultiLockCategory::Umbrella => LockModel { umbrella: Some(v), ..m },
        ToolMultiLockCategory::MistRaven => LockModel { mist_raven: Some(v), ..m },
        ToolMultiLockCategory::Firecracker => LockModel { firecracker: Some(v), ..m },
        ToolMultiLockCategory::Sabimaru => LockModel { sabimaru: Some(v), ..m },
    }
}

pub open spec fn lock_set_all(m: LockModel, es: Seq<(ToolMultiLockCategory, Seq<char>)>) -> LockModel
    decreases es.len(),
{
    if es.len() == 0 {
        m
    } else {
        lock_set(lock_set_all(m, es.drop_last()), es.last().0, es.last().1)
    }
}

/// Per-family multi-hit lock seconds (`# 多段触发时限`), as numeric text.
#[derive(Debug)]
pub struct LockSecs {
    pub shuriken: Option<Vec<char>>,
    pub umbrella: Option<Vec<char>>,
    pub mist_raven: Option<Vec<char>>,
    pub firecracker: Option<Vec<char>>,
    pub sabimaru: Option<Vec<char>>,
}

impl View for LockSecs {
    type V = LockModel;

    open spec fn view(&self) -> LockModel {
        LockModel {
            shuriken: opt_view(self.shuriken),
            umbrella: opt_view(self.umbrella),
            mist_raven: opt_view(self.mist_raven),
            firecracker: opt_view(self.firecracker),
            sabimaru: opt_view(self.sabimaru),
        }
    }
}

pub fn opt_copy(o: &Option<Vec<char>>) -> (r: Option<Vec<char>>)
    ensures
        opt_view(r) == opt_view(*o),
{
    match o {
        Some(v) => Some(copy_chars(v)),
        None => None,
    }
}

impl LockSecs {
    pub fn new() -> (r: LockSecs)
        ensures
            r@ == (LockModel {
                shuriken: None,
                umbrella: None,
                mist_raven: None,
                firecracker: None,
                sabimaru: None,
            }),
    {
        LockSecs { shuriken: None, umbrella: None, mist_raven: None, firecracker: None, sabimaru: None }
    }

    pub fn get(&self, c: ToolMultiLockCategory) -> (r: Option<Vec<char>>)
        ensures
            opt_view(r) == lock_get(self@, c),
    {
        match c {
            ToolMultiLockCategory::Shuriken => opt_copy(&self.shuriken),
            ToolMultiLockCategory::Umbrella => opt_copy(&self.umbrella),
            ToolMultiLockCategory::MistRaven => opt_copy(&self.mist_raven),
            ToolMultiLockCategory::Firecracker => opt_copy(&self.firecracker),
            ToolMultiLockCategory::Sabimaru => opt_copy(&self.sabimaru),
        }
    }

    /// Whether the family has a lock setting of its own.
    pub fn contains_key(&self, c: ToolMultiLockCategory) -> (r: bool)
        ensures
            r == lock_get(self@, c) is Some,
    {
        match c {
            ToolMultiLockCategory::Shuriken => self.shuriken.is_some(),
            ToolMultiLockCategory::Umbrella => self.umbrella.is_some(),
            ToolMultiLockCategory::MistRaven => self.mist_raven.is_some(),
            ToolMultiLockCategory::Firecracker => self.firecracker.is_some(),
            ToolMultiLockCategory::Sabimaru => self.sabimaru.is_some(),
        }
    }

    pub fn set(&mut self, c: ToolMultiLockCategory, v: Vec<char>)
        ensures
            final(self)@ == lock_set(old(self)@, c, v@),
    {
        match c {
            ToolMultiLockCategory::Shuriken => self.shuriken = Some(v),
            ToolMultiLockCategory::Umbrella => self.umbrella = Some(v),
            ToolMultiLockCategory::MistRaven => self.mist_raven = Some(v),
            ToolMultiLockCategory::Firecracker => self.firecracker = Some(v),
            ToolMultiLockCategory::Sabimaru => self.sabimaru = Some(v),
        }
    }
}

/// The lock seconds noted for prosthetic `u`: those of its first note.
pub open spec fn note_get(s: Seq<(u32, Seq<char>)>, u: u32) -> Option<Seq<char>>
    decreases s.len(),
{
    if s.len() == 0 {
        None
    } else {
        match note_get(s.drop_last(), u) {
            Some(v) => Some(v),
            None => if s.last().0 == u {
                Some(s.last().1)
            } else {
                None
            },
        }
    }
}

/// Note lock seconds `v` for prosthetic `u` unless it has a note already.
pub open spec fn note_insert(s: Seq<(u32, Seq<char>)>, u: u32, v: Seq<char>) -> Seq<(u32, Seq<char>)> {
    if note_get(s, u) is Some {
        s
    } else {
        s.push((u, v))
    }
}

proof fn lemma_note_get_extend(s: Seq<(u32, Seq<char>)>, n: int, u: u32)
    requires
        0 <= n <= s.len(),
        note_get(s.take(n), u) is Some,
    ensures
        note_get(s, u) == note_get(s.take(n), u),
    decreases s.len() - n,
{
    if n < s.len() {
        assert(s.take(n + 1).drop_last() =~= s.take(n));
        lemma_note_get_extend(s, n + 1, u);
    } else {
        assert(s.take(n) =~= s);
    }
}

/// Per-bind lock seconds (`↑q-0.5s`), as `(uid, numeric text)` notes; the first
/// note of a prosthetic is the one kept.
#[derive(Debug)]
pub struct BindLocks {
    pub entries: Vec<(u32, Vec<char>)>,
}

impl View for BindLocks {
    type V = Seq<(u32, Seq<char>)>;

    open spec fn view(&self) -> Seq<(u32, Seq<char>)> {
        self.entries@.map_values(|e: (u32, Vec<char>)| (e.0, e.1@))
    }
}

impl BindLocks {
    pub fn new() -> (r: BindLocks)
        ensures
            r@ == Seq::<(u32, Seq<char>)>::empty(),
    {
        let r = BindLocks { entries: Vec::new() };
        assert(r@ =~= Seq::<(u32, Seq<char>)>::empty());
        r
    }

    /// The lock seconds noted for prosthetic `u`.
    pub fn get(&self, u: u32) -> (r: Option<Vec<char>>)
        ensures
            opt_view(r) == note_get(self@, u),
    {
        let mut i: usize = 0;
        while i < self.entries.len()
            invariant
                i <= self.entries@.len(),
                note_get(self@.take(i as int), u) is None,
            decreases self.entries.len() - i,
        {
            assert(self@.take(i + 1).drop_last() =~= self@.take(i as int));
            assert(self@[i as int] == (self.entries@[i as int].0, self.entries@[i as int].1@));
            if self.entries[i].0 == u {
                proof {
                    lemma_note_get_extend(self@, i + 1, u);
                }
                return Some(copy_chars(&self.entries[i].1));
            }
            i = i + 1;
        }
        assert(self@.take(i as int) =~= self@);
        None
    }

    /// Note `v` for prosthetic `u` unless it has a note already.
    pub fn note(&mut self, u: u32, v: Vec<char>)
        ensures
            final(self)@ == note_insert(old(self)@, u, v@),
    {
        if self.get(u).is_none() {
            let ghost before = self@;
            let ghost vv = v@;
            self.entries.push((u, v));
            assert(self@ =~= before.push((u, vv)));
        }
    }
}

/// What a cfg says, as mathematical values.
pub struct ConfigModel {
    pub arts: Seq<(u8, u32)>,
    pub tools: Seq<(u8, u32)>,
    pub tool_on_t: Option<u32>,
    pub tool_on_q: Option<u32>,
    pub rl_window_secs: Option<Seq<char>>,
    pub boot_console: bool,
    pub lock: LockModel,
    pub bind_lock: Seq<(u32, Seq<char>)>,
}

/// The parsed cfg.
#[derive(Debug)]
pub struct Config {
    /// Combat arts by combo (`art_code`); the first bind of a combo is kept.
    pub arts: Binds,
    /// Two-key prosthetic binds by combo (`tool_code`); the first bind is kept.
    pub tools: Binds,
    /// Unique bare-`t` prosthetic (the default after other tools are released).
    pub tool_on_t: Option<u32>,
    /// Unique bare-`q` prosthetic: fired like the bare-`t` one, but never the
    /// default to return to.
    pub tool_on_q: Option<u32>,
    /// `rl` window seconds (`# rl触发时限`), as numeric text; `None` for the 0.1s default.
    pub rl_window_secs: Option<Vec<char>>,
    /// Startup progress console (`# 启动信息print窗口`).
    pub boot_console: bool,
    /// Per-family multi-hit lock after tail release (`# 多段触发时限`).
    pub tool_multi_lock_secs: LockSecs,
    /// Per-bind multi-hit lock after tail release (`↑q-0.5s`); overrides the family's.
    pub bind_lock: BindLocks,
}

impl View for Config {
    type V = ConfigModel;

    open spec fn view(&self) -> ConfigModel {
        ConfigModel {
            arts: self.arts.entries@,
            tools: self.tools.entries@,
            tool_on_t: self.tool_on_t,
            tool_on_q: self.tool_on_q,
            rl_window_secs: opt_view(self.rl_window_secs),
            boot_console: self.boot_console,
            lock: self.tool_multi_lock_secs@,
            bind_lock: self.bind_lock@,
        }
    }
}

pub open spec fn default_model() -> ConfigModel {
    ConfigModel {
        arts: Seq::empty(),
        tools: Seq::empty(),
        tool_on_t: None,
        tool_on_q: None,
        rl_window_secs: None,
        boot_console: false,
        lock: LockModel {
            shuriken: None,
            umbrella: None,
            mist_raven: None,
            firecracker: None,
            sabimaru: None,
        },
        bind_lock: Seq::empty(),
    }
}

//----------------------------------------------------------------------------
//  Comment settings
//----------------------------------------------------------------------------

/// The seconds that a numeric text names, when `f32::from_str` accepts it.
pub open spec fn secs_of(raw: Seq<char>) -> Option<Seq<char>> {
    let num = numeric_prefix(raw);
    if float_text_ok(num) {
        Some(num)
    } else {
        None
    }
}

/// `# rl触发时限: 0.1s` or `# rl window: 0.1s` (optional trailing `s`); only a
/// value whose `f32` reading is above zero.
pub open spec fn rl_window_of(line: Seq<char>) -> Option<Seq<char>> {
    match comment_body(line) {
        None => None,
        Some(body) => {
            let key = comment_key(body);
            if key == "rl触发时限"@ || key == "rl window"@ {
                match colon_piece1(body) {
                    None => None,
                    Some(p) => {
                        let num = numeric_prefix(trim(p));
                        if float_text_ok(num) && f32_positive(num) {
                            Some(num)
                        } else {
                            None
                        }
                    },
                }
            } else {
                None
            }
        },
    }
}

/// The family a name in a lock comment stands for.
pub open spec fn category_of(name: Seq<char>) -> Option<ToolMultiLockCategory> {
    let n = lower(trim(name));
    if n == "手里剑"@ || n == "shuriken"@ {
        Some(ToolMultiLockCategory::Shuriken)
    } else if n == "伞"@ || n == "umbrella"@ {
        Some(ToolMultiLockCategory::Umbrella)
    } else if n == "雾鸦"@ || n == "mist raven"@ || n == "mistraven"@ || n == "mist"@ {
        Some(ToolMultiLockCategory::MistRaven)
    } else if n == "爆竹"@ || n == "firecracker"@ {
        Some(ToolMultiLockCategory::Firecracker)
    } else if n == "锈丸"@ || n == "sabimaru"@ {
        Some(ToolMultiLockCategory::Sabimaru)
    } else {
        None
    }
}

/// The key prefix of a one-family lock comment that `key` starts with.
pub open spec fn lock_entry_prefix(key: Seq<char>) -> Option<Seq<char>> {
    if starts_with(key, "多段触发时限·"@) {
        Some("多段触发时限·"@)
    } else if starts_with(lower(key), "multi-hit window·"@) {
        Some("multi-hit window·"@)
    } else if starts_with(lower(key), "multi-hit window."@) {
        Some("multi-hit window."@)
    } else {
        None
    }
}

/// `# 多段触发时限·锈丸: 0.5s`.
pub open spec fn lock_entry_of(line: Seq<char>) -> Option<(ToolMultiLockCategory, Seq<char>)> {
    match comment_body(line) {
        None => None,
        Some(body) => match find_first(body, Cls::Colon) {
            None => None,
            Some(i) => {
                let key = trim(body.take(i));
                let rest = body.skip(i + 1);
                match lock_entry_prefix(key) {
                    None => None,
                    Some(p) => match category_of(trim(strip_prefix_all(key, p))) {
                        None => None,
                        Some(cat) => match secs_of(trim(rest)) {
                            None => None,
                            Some(secs) => Some((cat, secs)),
                        },
                    },
                }
            },
        },
    }
}

/// One comma-separated part of a bulk lock comment.
#[derive(Clone, Copy, PartialEq, Eq, Structural, Debug)]
pub enum BulkPart {
    /// A blank part, passed over.
    Skip,
    /// A part that cannot be read; the whole comment is refused.
    Bad,
    /// A family and its seconds.
    Entry,
}

/// Where a part splits into name and seconds: its last space, else its last tab.
pub open spec fn part_split(t: Seq<char>) -> Option<int> {
    match find_last(t, Cls::Space) {
        Some(i) => Some(i),
        None => find_last(t, Cls::Tab),
    }
}

pub open spec fn part_kind(part: Seq<char>) -> BulkPart {
    let t = trim(part);
    if t.len() == 0 {
        BulkPart::Skip
    } else {
        match part_split(t) {
            None => BulkPart::Bad,
            Some(i) => if category_of(trim(t.take(i))) is Some && secs_of(trim(t.skip(i + 1))) is Some {
                BulkPart::Entry
            } else {
                BulkPart::Bad
            },
        }
    }
}

pub open spec fn part_entry(part: Seq<char>) -> (ToolMultiLockCategory, Seq<char>) {
    let t = trim(part);
    let i = part_split(t).unwrap();
    (category_of(trim(t.take(i))).unwrap(), secs_of(trim(t.skip(i + 1))).unwrap())
}

/// The entries of the parts, in order; `None` when a part cannot be read.
pub open spec fn bulk_entries(parts: Seq<Seq<char>>) -> Option<Seq<(ToolMultiLockCategory, Seq<char>)>>
    decreases parts.len(),
{
    if parts.len() == 0 {
        Some(Seq::empty())
    } else {
        match bulk_entries(parts.drop_last()) {
            None => None,
            Some(acc) => match part_kind(parts.last()) {
                BulkPart::Skip => Some(acc),
                BulkPart::Bad => None,
                BulkPart::Entry => Some(acc.push(part_entry(parts.last()))),
            },
        }
    }
}

/// `# 多段触发时限: 手里剑 0s, 锈丸 0.5s` or `# multi-hit window: shuriken 0s, sabimaru 0.5s`.
pub open spec fn lock_bulk_of(line: Seq<char>) -> Option<Seq<(ToolMultiLockCategory, Seq<char>)>> {
    match comment_body(line) {
        None => None,
        Some(body) => {
            let key = comment_key(body);
            if key == "多段触发时限"@ || key == "multi-hit window"@ {
                match colon_piece1(body) {
                    None => None,
                    Some(p) => match bulk_entries(split_all(trim(p), Cls::Comma)) {
                        Some(es) => if es.len() > 0 {
                            Some(es)
                        } else {
                            None
                        },
                        None => None,
                    },
                }
            } else {
                None
            }
        },
    }
}

//----------------------------------------------------------------------------
//  Bind lines
//----------------------------------------------------------------------------

pub open spec fn is_hash_word(w: Seq<char>) -> bool {
    w.len() > 0 && w[0] == '#'
}

/// Number of words before the first word that starts with `#`.
pub open spec fn until_hash_len(ws: Seq<Seq<char>>) -> nat
    decreases ws.len(),
{
    if ws.len() == 0 {
        0
    } else if is_hash_word(ws[0]) {
        0
    } else {
        1 + until_hash_len(ws.drop_first())
    }
}

pub fn is_hash_word_exec(w: &Vec<char>) -> (r: bool)
    ensures
        r == is_hash_word(w@),
{
    w.len() > 0 && w[0] == '#'
}

pub proof fn lemma_until_hash_len(ws: Seq<Seq<char>>, n: int)
    requires
        0 <= n <= ws.len(),
        forall|j: int| 0 <= j < n ==> !is_hash_word(#[trigger] ws[j]),
        n < ws.len() ==> is_hash_word(ws[n]),
    ensures
        until_hash_len(ws) == n,
    decreases n,
{
    if n > 0 {
        assert forall|j: int| 0 <= j < n - 1 implies !is_hash_word(
            #[trigger] ws.drop_first()[j],
        ) by {
            assert(ws.drop_first()[j] == ws[j + 1]);
        }
        if n < ws.len() {
            assert(ws.drop_first()[n - 1] == ws[n]);
        }
        lemma_until_hash_len(ws.drop_first(), n - 1);
    }
}

/// The trimmed, nonempty pieces of the parts, in order.
pub open spec fn nonempty_trims(ps: Seq<Seq<char>>) -> Seq<Seq<char>>
    decreases ps.len(),
{
    if ps.len() == 0 {
        Seq::empty()
    } else {
        let rest = nonempty_trims(ps.drop_last());
        let t = trim(ps.last());
        if t.len() == 0 {
            rest
        } else {
            rest.push(t)
        }
    }
}

/// The alternative binds of a motion word: `↓l/l↓` binds both `↓l` and `l↓`.
pub open spec fn alternates(motion: Seq<char>) -> Seq<Seq<char>> {
    nonempty_trims(split_all(motion, Cls::Slash))
}

pub open spec fn token_of(c: char) -> Option<ArtToken> {
    if c == '↑' {
        Some(ArtToken::Up)
    } else if c == '→' {
        Some(ArtToken::Right)
    } else if c == '↓' {
        Some(ArtToken::Down)
    } else if c == '←' {
        Some(ArtToken::Left)
    } else if c == 'r' || c == 'R' {
        Some(ArtToken::Block)
    } else if c == 'l' || c == 'L' {
        Some(ArtToken::Attack)
    } else if c == 'f' || c == 'F' || c == 'e' || c == 'E' {
        Some(ArtToken::Interact)
    } else {
        None
    }
}

pub open spec fn first_of(c: char) -> Option<ToolFirst> {
    if c == 'q' || c == 'Q' {
        Some(ToolFirst::Switch)
    } else {
        match token_of(c) {
            Some(t) => Some(first_from_art(t)),
            None => None,
        }
    }
}

pub open spec fn tail_of(c: char) -> Option<ToolTail> {
    if c == 'q' || c == 'Q' {
        Some(ToolTail::Switch)
    } else if c == 't' || c == 'T' {
        Some(ToolTail::Use)
    } else {
        None
    }
}

/// A prosthetic bind: `t` / `q` alone, or a first key then `q`/`t`.
pub open spec fn tool_motion_of(motion: Seq<char>) -> Option<ToolMotion> {
    let m = trim(motion);
    if m == "t"@ || m == "T"@ {
        Some(ToolMotion::TAlone)
    } else if m == "q"@ || m == "Q"@ {
        Some(ToolMotion::QAlone)
    } else if m.len() == 2 {
        match (first_of(m[0]), tail_of(m[1])) {
            (Some(f), Some(t)) => Some(ToolMotion::Combo(ToolCombo { first: f, tail: t })),
            _ => None,
        }
    } else {
        None
    }
}

/// A combat-art bind: `∅` (or `NONE` / `none`), or exactly two tokens.
pub open spec fn art_combo_of(motion: Seq<char>) -> Option<ArtCombo> {
    let m = trim(motion);
    if m == "∅"@ || m == "NONE"@ || m == "none"@ {
        Some(ArtCombo::Empty)
    } else if m.len() == 2 {
        match (token_of(m[0]), token_of(m[1])) {
            (Some(a), Some(b)) => Some(ArtCombo::Pair(a, b)),
            _ => None,
        }
    } else {
        None
    }
}

/// A prosthetic bind alternative split at its first `-`: the motion, and the
/// lock suffix where there is one (`↑q-0.5s` gives `↑q` and `0.5s`).
pub open spec fn bind_parts(alt: Seq<char>) -> (Seq<char>, Option<Seq<char>>) {
    match find_first(alt, Cls::Dash) {
        Some(i) => (alt.take(i), Some(alt.skip(i + 1))),
        None => (alt, None),
    }
}

/// The seconds of a lock suffix: the number after its label, if any
/// (`0.5s`, `多段触发时限0.5s` and `multi-hit0.5s` all give `0.5`).
pub open spec fn suffix_secs(sfx: Seq<char>) -> Option<Seq<char>> {
    match find_first(sfx, Cls::NumChar) {
        Some(j) => secs_of(sfx.skip(j)),
        None => None,
    }
}

/// The binds after prosthetic `id` is bound by motion `m`.
pub open spec fn with_tool_motion(c: ConfigModel, m: ToolMotion, id: u32) -> ConfigModel {
    match m {
        ToolMotion::TAlone => if c.tool_on_t is Some {
            c
        } else {
            ConfigModel { tool_on_t: Some(id), ..c }
        },
        ToolMotion::QAlone => if c.tool_on_q is Some {
            c
        } else {
            ConfigModel { tool_on_q: Some(id), ..c }
        },
        ToolMotion::Combo(k) => ConfigModel { tools: bind_insert(c.tools, tool_code(k), id), ..c },
    }
}

/// One prosthetic bind alternative: its motion binds `id`, and a lock suffix
/// with a number notes that lock for `id`.
pub open spec fn apply_tool_alt(c: ConfigModel, alt: Seq<char>, id: u32) -> ConfigModel {
    let (m, sfx) = bind_parts(alt);
    match tool_motion_of(m) {
        None => c,
        Some(tm) => {
            let c1 = with_tool_motion(c, tm, id);
            match sfx {
                Some(x) => match suffix_secs(x) {
                    Some(secs) => ConfigModel { bind_lock: note_insert(c1.bind_lock, id, secs), ..c1 },
                    None => c1,
                },
                None => c1,
            }
        },
    }
}

pub open spec fn apply_tool_alts(c: ConfigModel, alts: Seq<Seq<char>>, id: u32) -> ConfigModel
    decreases alts.len(),
{
    if alts.len() == 0 {
        c
    } else {
        apply_tool_alt(apply_tool_alts(c, alts.drop_last(), id), alts.last(), id)
    }
}

pub open spec fn apply_art_alt(c: ConfigModel, alt: Seq<char>, id: u32) -> ConfigModel {
    match art_combo_of(alt) {
        Some(k) => ConfigModel { arts: bind_insert(c.arts, art_code(k), id), ..c },
        None => c,
    }
}

pub open spec fn apply_art_alts(c: ConfigModel, alts: Seq<Seq<char>>, id: u32) -> ConfigModel
    decreases alts.len(),
{
    if alts.len() == 0 {
        c
    } else {
        apply_art_alt(apply_art_alts(c, alts.drop_last(), id), alts.last(), id)
    }
}

/// A bind line: `UID  name…  motion`, where words from the first `#` on are a
/// comment; prosthetic UIDs are 70000..=100000, combat arts 5000..=10000.
pub open spec fn bind_line(c: ConfigModel, line: Seq<char>) -> ConfigModel {
    let ws = words(line);
    let n = until_hash_len(ws);
    if n == 0 {
        c
    } else {
        match parse_u32(ws[0]) {
            None => c,
            Some(id) => if n < 2 {
                c
            } else if 70000 <= id <= 100000 {
                apply_tool_alts(c, alternates(ws[n - 1]), id)
            } else if 5000 <= id <= 10000 {
                apply_art_alts(c, alternates(ws[n - 1]), id)
            } else {
                c
            },
        }
    }
}

/// The effect of one cfg line.
pub open spec fn apply_line(c: ConfigModel, line: Seq<char>) -> ConfigModel {
    match rl_window_of(line) {
        Some(secs) => ConfigModel { rl_window_secs: Some(secs), ..c },
        None => match boot_console_of(line) {
            Some(v) => ConfigModel { boot_console: v, ..c },
            None => match lock_entry_of(line) {
                Some((cat, secs)) => ConfigModel { lock: lock_set(c.lock, cat, secs), ..c },
                None => match lock_bulk_of(line) {
                    Some(es) => ConfigModel { lock: lock_set_all(c.lock, es), ..c },
                    None => bind_line(c, line),
                },
            },
        },
    }
}

/// The cfg that the lines give, read in order from the defaults.
pub open spec fn config_of_lines(ls: Seq<Seq<char>>) -> ConfigModel
    decreases ls.len(),
{
    if ls.len() == 0 {
        default_model()
    } else {
        apply_line(config_of_lines(ls.drop_last()), ls.last())
    }
}

/// The cfg that a text gives.
pub open spec fn config_of_text(text: Seq<char>) -> ConfigModel {
    config_of_lines(lines_of(text))
}

//----------------------------------------------------------------------------
//  Executable parsers
//----------------------------------------------------------------------------

pub fn parse_secs_value(raw: &Vec<char>) -> (r: Option<Vec<char>>)
    ensures
        opt_view(r) == secs_of(raw@),
{
    let num = numeric_prefix_exec(raw);
    if float_text_ok_exec(&num) {
        Some(num)
    } else {
        None
    }
}

/// `# rl触发时限: 0.1s` or `# rl window: 0.1s`; the seconds as numeric text.
pub fn parse_rl_window_comment(line: &Vec<char>) -> (r: Option<Vec<char>>)
    ensures
        opt_view(r) == rl_window_of(line@),
{
    let body = match comment_body_exec(line) {
        None => {
            return None;
        },
        Some(b) => b,
    };
    let key = comment_key_exec(&body);
    if !(eq_lit(&key, "rl触发时限") || eq_lit(&key, "rl window")) {
        return None;
    }
    match colon_piece1_exec(&body) {
        None => None,
        Some(p) => {
            let t = trim_exec(&p);
            let num = numeric_prefix_exec(&t);
            if float_text_ok_exec(&num) && f32_positive_exec(&num) {
                Some(num)
            } else {
                None
            }
        },
    }
}

pub fn parse_tool_multi_lock_category(name: &Vec<char>) -> (r: Option<ToolMultiLockCategory>)
    ensures
        r == category_of(name@),
{
    let t = trim_exec(name);
    let n = lower_exec(&t);
    if eq_lit(&n, "手里剑") || eq_lit(&n, "shuriken") {
        Some(ToolMultiLockCategory::Shuriken)
    } else if eq_lit(&n, "伞") || eq_lit(&n, "umbrella") {
        Some(ToolMultiLockCategory::Umbrella)
    } else if eq_lit(&n, "雾鸦") || eq_lit(&n, "mist raven") || eq_lit(&n, "mistraven") || eq_lit(
        &n,
        "mist",
    ) {
        Some(ToolMultiLockCategory::MistRaven)
    } else if eq_lit(&n, "爆竹") || eq_lit(&n, "firecracker") {
        Some(ToolMultiLockCategory::Firecracker)
    } else if eq_lit(&n, "锈丸") || eq_lit(&n, "sabimaru") {
        Some(ToolMultiLockCategory::Sabimaru)
    } else {
        None
    }
}

fn lock_entry_prefix_exec(key: &Vec<char>) -> (r: Option<Vec<char>>)
    ensures
        opt_view(r) == lock_entry_prefix(key@),
{
    let p1 = chars_of("多段触发时限·");
    if starts_with_exec(key, &p1) {
        return Some(p1);
    }
    let lk = lower_exec(key);
    let p2 = chars_of("multi-hit window·");
    if starts_with_exec(&lk, &p2) {
        return Some(p2);
    }
    let p3 = chars_of("multi-hit window.");
    if starts_with_exec(&lk, &p3) {
        return Some(p3);
    }
    None
}

/// `# 多段触发时限·锈丸: 0.5s`.
pub fn parse_tool_multi_lock_entry(line: &Vec<char>) -> (r: Option<(ToolMultiLockCategory, Vec<char>)>)
    ensures
        match r {
            Some((cat, secs)) => lock_entry_of(line@) == Some((cat, secs@)),
            None => lock_entry_of(line@) is None,
        },
{
    let body = match comment_body_exec(line) {
        None => {
            return None;
        },
        Some(b) => b,
    };
    proof {
        lemma_find_first(body@, Cls::Colon);
    }
    let i = match crate::text::find_first_exec(&body, Cls::Colon) {
        None => {
            return None;
        },
        Some(i) => i,
    };
    assert(i < body.len());
    let k0 = slice_of(&body, 0, i);
    let key = trim_exec(&k0);
    let rest = slice_of(&body, i + 1, body.len());
    let p = match lock_entry_prefix_exec(&key) {
        None => {
            return None;
        },
        Some(p) => p,
    };
    let stripped = strip_prefix_all_exec(&key, &p);
    let name = trim_exec(&stripped);
    let cat = match parse_tool_multi_lock_category(&name) {
        None => {
            return None;
        },
        Some(c) => c,
    };
    let rt = trim_exec(&rest);
    match parse_secs_value(&rt) {
        None => None,
        Some(secs) => Some((cat, secs)),
    }
}

pub open spec fn entries_view(v: Seq<(ToolMultiLockCategory, Vec<char>)>) -> Seq<(ToolMultiLockCategory, Seq<char>)> {
    v.map_values(|e: (ToolMultiLockCategory, Vec<char>)| (e.0, e.1@))
}

/// One part of a bulk lock comment: `Ok(None)` for a blank part, `Ok(Some(..))`
/// for an entry, `Err(())` for a part that cannot be read.
fn parse_bulk_part(part: &Vec<char>) -> (r: Result<Option<(ToolMultiLockCategory, Vec<char>)>, ()>)
    ensures
        match r {
            Ok(None) => part_kind(part@) == BulkPart::Skip,
            Ok(Some((c, s))) => part_kind(part@) == BulkPart::Entry && part_entry(part@) == (c, s@),
            Err(_) => part_kind(part@) == BulkPart::Bad,
        },
{
    let t = trim_exec(part);
    if t.len() == 0 {
        return Ok(None);
    }
    proof {
        lemma_find_last(t@, Cls::Space);
        lemma_find_last(t@, Cls::Tab);
    }
    let i = match find_last_exec(&t, Cls::Space) {
        Some(i) => i,
        None => match find_last_exec(&t, Cls::Tab) {
            Some(i) => i,
            None => {
                return Err(());
            },
        },
    };
    assert(i < t.len());
    let n0 = slice_of(&t, 0, i);
    let name = trim_exec(&n0);
    let s0 = slice_of(&t, i + 1, t.len());
    let secs_raw = trim_exec(&s0);
    let cat = match parse_tool_multi_lock_category(&name) {
        None => {
            return Err(());
        },
        Some(c) => c,
    };
    match parse_secs_value(&secs_raw) {
        None => Err(()),
        Some(secs) => Ok(Some((cat, secs))),
    }
}

/// `# 多段触发时限: 手里剑 0s, 锈丸 0.5s` or `# multi-hit window: shuriken 0s, sabimaru 0.5s`.
pub fn parse_tool_multi_lock_bulk(line: &Vec<char>) -> (r: Option<Vec<(ToolMultiLockCategory, Vec<char>)>>)
    ensures
        match r {
            Some(es) => lock_bulk_of(line@) == Some(entries_view(es@)),
            None => lock_bulk_of(line@) is None,
        },
{
    let body = match comment_body_exec(line) {
        None => {
            return None;
        },
        Some(b) => b,
    };
    let key = comment_key_exec(&body);
    if !(eq_lit(&key, "多段触发时限") || eq_lit(&key, "multi-hit window")) {
        return None;
    }
    let p = match colon_piece1_exec(&body) {
        None => {
            return None;
        },
        Some(p) => p,
    };
    let rest = trim_exec(&p);
    let parts = split_all_exec(&rest, Cls::Comma);
    let ghost ps = split_all(rest@, Cls::Comma);
    assert(lock_bulk_of(line@) == match bulk_entries(ps) {
        Some(es) => if es.len() > 0 {
            Some(es)
        } else {
            None
        },
        None => None,
    });
    assert(ps.take(0) =~= Seq::<Seq<char>>::empty());
    let mut out: Vec<(ToolMultiLockCategory, Vec<char>)> = Vec::new();
    let mut i: usize = 0;
    while i < parts.len()
        invariant
            lock_bulk_of(line@) == match bulk_entries(ps) {
                Some(es) => if es.len() > 0 {
                    Some(es)
                } else {
                    None
                },
                None => None,
            },
            i <= parts.len(),
            parts@.len() == ps.len(),
            views(parts@) == ps,
            bulk_entries(ps.take(i as int)) == Some(entries_view(out@)),
        decreases parts.len() - i,
    {
        assert(views(parts@)[i as int] == parts@[i as int]@);
        assert(ps.take(i + 1).drop_last() =~= ps.take(i as int));
        assert(ps.take(i + 1).last() == ps[i as int]);
        match parse_bulk_part(&parts[i]) {
            Ok(None) => {},
            Ok(Some(e)) => {
                let ghost old_out = out@;
                out.push(e);
                assert(entries_view(out@) =~= entries_view(old_out).push(
                    part_entry(ps[i as int]),
                ));
            },
            Err(_) => {
                proof {
                    assert(part_kind(ps[i as int]) == BulkPart::Bad);
                    assert(bulk_entries(ps.take(i + 1)) is None);
                    lemma_bulk_entries_bad(ps, i as int + 1);
                }
                return None;
            },
        }
        i = i + 1;
    }
    assert(ps.take(i as int) =~= ps);
    if out.len() > 0 {
        Some(out)
    } else {
        None
    }
}

/// Once a part cannot be read, the whole list cannot.
proof fn lemma_bulk_entries_bad(ps: Seq<Seq<char>>, n: int)
    requires
        0 <= n <= ps.len(),
        bulk_entries(ps.take(n)) is None,
    ensures
        bulk_entries(ps) is None,
    decreases ps.len() - n,
{
    if n < ps.len() {
        assert(ps.take(n + 1).drop_last() =~= ps.take(n));
        lemma_bulk_entries_bad(ps, n + 1);
    } else {
        assert(ps.take(n) =~= ps);
    }
}

pub fn token_of_exec(c: char) -> (r: Option<ArtToken>)
    ensures
        r == token_of(c),
{
    if c == '↑' {
        Some(ArtToken::Up)
    } else if c == '→' {
        Some(ArtToken::Right)
    } else if c == '↓' {
        Some(ArtToken::Down)
    } else if c == '←' {
        Some(ArtToken::Left)
    } else if c == 'r' || c == 'R' {
        Some(ArtToken::Block)
    } else if c == 'l' || c == 'L' {
        Some(ArtToken::Attack)
    } else if c == 'f' || c == 'F' || c == 'e' || c == 'E' {
        Some(ArtToken::Interact)
    } else {
        None
    }
}

/// `t` / `q` alone, or first ∈ {↑↓←→, r, l, e, q} then tail ∈ {q, t}; `f` still
/// reads as interact.
pub fn parse_tool_motion(motion: &Vec<char>) -> (r: Option<ToolMotion>)
    ensures
        r == tool_motion_of(motion@),
{
    let m = trim_exec(motion);
    if eq_lit(&m, "t") || eq_lit(&m, "T") {
        return Some(ToolMotion::TAlone);
    }
    if eq_lit(&m, "q") || eq_lit(&m, "Q") {
        return Some(ToolMotion::QAlone);
    }
    if m.len() != 2 {
        return None;
    }
    let first = if m[0] == 'q' || m[0] == 'Q' {
        ToolFirst::Switch
    } else {
        match token_of_exec(m[0]) {
            Some(t) => ToolFirst::from_art(t),
            None => {
                return None;
            },
        }
    };
    let tail = if m[1] == 'q' || m[1] == 'Q' {
        ToolTail::Switch
    } else if m[1] == 't' || m[1] == 'T' {
        ToolTail::Use
    } else {
        return None;
    };
    Some(ToolMotion::Combo(ToolCombo { first, tail }))
}

/// Combat-art motions: `∅` (or `NONE` / `none`), or exactly two of {↑↓←→, r, l, e};
/// `f` still reads as interact.
pub fn parse_art_combo(motion: &Vec<char>) -> (r: Option<ArtCombo>)
    ensures
        r == art_combo_of(motion@),
{
    let m = trim_exec(motion);
    if eq_lit(&m, "∅") || eq_lit(&m, "NONE") || eq_lit(&m, "none") {
        return Some(ArtCombo::empty());
    }
    if m.len() != 2 {
        return None;
    }
    match (token_of_exec(m[0]), token_of_exec(m[1])) {
        (Some(a), Some(b)) => Some(ArtCombo::pair(a, b)),
        _ => None,
    }
}

/// The alternatives of a motion word, split at `/`, trimmed, blanks dropped.
pub fn split_motion_alternates(motion: &Vec<char>) -> (r: Vec<Vec<char>>)
    ensures
        views(r@) == alternates(motion@),
{
    let parts = split_all_exec(motion, Cls::Slash);
    let ghost ps = split_all(motion@, Cls::Slash);
    let mut r: Vec<Vec<char>> = Vec::new();
    let mut i: usize = 0;
    while i < parts.len()
        invariant
            i <= parts.len(),
            parts@.len() == ps.len(),
            views(parts@) == ps,
            views(r@) == nonempty_trims(ps.take(i as int)),
        decreases parts.len() - i,
    {
        assert(views(parts@)[i as int] == parts@[i as int]@);
        assert(ps.take(i + 1).drop_last() =~= ps.take(i as int));
        assert(ps.take(i + 1).last() == ps[i as int]);
        let t = trim_exec(&parts[i]);
        if t.len() > 0 {
            let ghost old_r = views(r@);
            r.push(t);
            assert(views(r@) =~= old_r.push(trim(ps[i as int])));
        }
        i = i + 1;
    }
    assert(ps.take(i as int) =~= ps);
    r
}

/// Split a prosthetic bind alternative at its first `-` into motion and lock suffix.
pub fn split_lock_suffix(alt: &Vec<char>) -> (r: (Vec<char>, Option<Vec<char>>))
    ensures
        (r.0@, opt_view(r.1)) == bind_parts(alt@),
{
    proof {
        crate::text::lemma_find_first(alt@, Cls::Dash);
    }
    match find_first_exec(alt, Cls::Dash) {
        Some(i) => {
            let m = slice_of(alt, 0, i);
            let x = slice_of(alt, i + 1, alt.len());
            assert(m@ =~= alt@.take(i as int));
            assert(x@ =~= alt@.skip(i + 1));
            (m, Some(x))
        },
        None => (copy_chars(alt), None),
    }
}

/// The seconds of a lock suffix: the number after its label.
pub fn parse_suffix_secs(sfx: &Vec<char>) -> (r: Option<Vec<char>>)
    ensures
        opt_view(r) == suffix_secs(sfx@),
{
    proof {
        crate::text::lemma_find_first(sfx@, Cls::NumChar);
    }
    match find_first_exec(sfx, Cls::NumChar) {
        Some(j) => {
            let rest = slice_of(sfx, j, sfx.len());
            assert(rest@ =~= sfx@.skip(j as int));
            parse_secs_value(&rest)
        },
        None => None,
    }
}

impl Config {
    /// Bind `combo` to `id` unless the combo is bound already.
    fn insert_art_bind(&mut self, combo: ArtCombo, id: u32)
        ensures
            final(self)@ == (ConfigModel { arts: bind_insert(old(self)@.arts, art_code(combo), id), ..old(self)@ }),
    {
        let k = combo.code();
        self.arts.insert(k, id);
    }

    /// Bind `combo` to `id` unless the combo is bound already.
    fn insert_tool_bind(&mut self, combo: ToolCombo, id: u32)
        ensures
            final(self)@ == (ConfigModel { tools: bind_insert(old(self)@.tools, tool_code(combo), id), ..old(self)@ }),
    {
        let k = combo.code();
        self.tools.insert(k, id);
    }

    fn apply_tool_alt(&mut self, alt: &Vec<char>, id: u32)
        ensures
            final(self)@ == apply_tool_alt(old(self)@, alt@, id),
    {
        let (m, sfx) = split_lock_suffix(alt);
        match parse_tool_motion(&m) {
            Some(ToolMotion::TAlone) => {
                if self.tool_on_t.is_none() {
                    self.tool_on_t = Some(id);
                }
            },
            Some(ToolMotion::QAlone) => {
                if self.tool_on_q.is_none() {
                    self.tool_on_q = Some(id);
                }
            },
            Some(ToolMotion::Combo(combo)) => {
                self.insert_tool_bind(combo, id);
            },
            None => {
                return;
            },
        }
        if let Some(x) = sfx {
            if let Some(secs) = parse_suffix_secs(&x) {
                self.bind_lock.note(id, secs);
            }
        }
    }

    fn apply_art_alt(&mut self, alt: &Vec<char>, id: u32)
        ensures
            final(self)@ == apply_art_alt(old(self)@, alt@, id),
    {
        if let Some(combo) = parse_art_combo(alt) {
            self.insert_art_bind(combo, id);
        }
    }

    fn apply_bind_line(&mut self, line: &Vec<char>)
        ensures
            final(self)@ == bind_line(old(self)@, line@),
    {
        let ws = words_exec(line);
        let ghost wv = words(line@);
        assert(ws@.len() == wv.len());
        let mut n: usize = 0;
        while n < ws.len() && !is_hash_word_exec(&ws[n])
            invariant
                n <= ws.len(),
                ws@.len() == wv.len(),
                views(ws@) == wv,
                forall|j: int| 0 <= j < n ==> !is_hash_word(#[trigger] wv[j]),
            decreases ws.len() - n,
        {
            assert(views(ws@)[n as int] == ws@[n as int]@);
            n = n + 1;
        }
        proof {
            if n < ws.len() {
                assert(views(ws@)[n as int] == ws@[n as int]@);
            }
            lemma_until_hash_len(wv, n as int);
        }
        if n == 0 {
            return;
        }
        assert(views(ws@)[0] == ws@[0]@);
        let id = match parse_u32_exec(&ws[0]) {
            None => {
                return;
            },
            Some(id) => id,
        };
        if n < 2 {
            return;
        }
        let tool = if PROSTHETIC_TOOL_UID_MIN <= id && id <= PROSTHETIC_TOOL_UID_MAX {
            true
        } else if COMBAT_ART_UID_MIN <= id && id <= COMBAT_ART_UID_MAX {
            false
        } else {
            return;
        };
        assert(views(ws@)[n - 1] == ws@[n - 1]@);
        let alts = split_motion_alternates(&ws[n - 1]);
        let ghost av = alternates(wv[n - 1]);
        let ghost c0 = self@;
        let mut i: usize = 0;
        while i < alts.len()
            invariant
                i <= alts.len(),
                alts@.len() == av.len(),
                views(alts@) == av,
                tool ==> self@ == apply_tool_alts(c0, av.take(i as int), id),
                !tool ==> self@ == apply_art_alts(c0, av.take(i as int), id),
            decreases alts.len() - i,
        {
            assert(views(alts@)[i as int] == alts@[i as int]@);
            assert(av.take(i + 1).drop_last() =~= av.take(i as int));
            assert(av.take(i + 1).last() == av[i as int]);
            if tool {
                self.apply_tool_alt(&alts[i], id);
            } else {
                self.apply_art_alt(&alts[i], id);
            }
            i = i + 1;
        }
        assert(av.take(i as int) =~= av);
    }

    /// Apply one cfg line.
    pub fn apply_line(&mut self, line: &Vec<char>)
        ensures
            final(self)@ == apply_line(old(self)@, line@),
    {
        if let Some(secs) = parse_rl_window_comment(line) {
            self.rl_window_secs = Some(secs);
            return;
        }
        if let Some(v) = boot_console_of_chars(line) {
            self.boot_console = v;
            return;
        }
        if let Some((cat, secs)) = parse_tool_multi_lock_entry(line) {
            self.tool_multi_lock_secs.set(cat, secs);
            return;
        }
        if let Some(entries) = parse_tool_multi_lock_bulk(line) {
            let ghost ev = entries_view(entries@);
            let ghost l0 = self@.lock;
            let ghost c0 = self@;
            let mut i: usize = 0;
            while i < entries.len()
                invariant
                    i <= entries.len(),
                    entries@.len() == ev.len(),
                    forall|j: int| 0 <= j < ev.len() ==> (#[trigger] entries@[j]).0 == ev[j].0 && entries@[j].1@ == ev[j].1,
                    self@ == (ConfigModel { lock: lock_set_all(l0, ev.take(i as int)), ..c0 }),
                decreases entries.len() - i,
            {
                assert(ev.take(i + 1).drop_last() =~= ev.take(i as int));
                let secs = copy_chars(&entries[i].1);
                self.tool_multi_lock_secs.set(entries[i].0, secs);
                i = i + 1;
            }
            assert(ev.take(i as int) =~= ev);
            return;
        }
        self.apply_bind_line(line);
    }

    /// The cfg that a text gives: its lines applied in order to the defaults.
    pub fn from_text(text: &str) -> (r: Config)
        ensures
            r@ == config_of_text(text@),
    {
        let mut config = Config::default();
        let chars = chars_of(text);
        let lines = lines_exec(&chars);
        let ghost ls = lines_of(text@);
        let mut i: usize = 0;
        while i < lines.len()
            invariant
                i <= lines.len(),
                lines@.len() == ls.len(),
                views(lines@) == ls,
                config@ == config_of_lines(ls.take(i as int)),
            decreases lines.len() - i,
        {
            assert(views(lines@)[i as int] == lines@[i as int]@);
            assert(ls.take(i + 1).drop_last() =~= ls.take(i as int));
            config.apply_line(&lines[i]);
            i = i + 1;
        }
        assert(ls.take(i as int) =~= ls);
        config
    }

    /// The combat art bound to `combo`.
    pub fn art(&self, combo: ArtCombo) -> (r: Option<u32>)
        ensures
            r == bind_get(self@.arts, art_code(combo)),
    {
        self.arts.get(combo.code())
    }

    /// The prosthetic bound to `combo`.
    pub fn tool(&self, combo: ToolCombo) -> (r: Option<u32>)
        ensures
            r == bind_get(self@.tools, tool_code(combo)),
    {
        self.tools.get(combo.code())
    }

    /// Lock seconds for re-triggering the prosthetic `uid` after its tail key is
    /// released: its bind's own setting, else its family's, else `None` for the
    /// 1s default.
    pub fn tool_lock_secs(&self, uid: Option<u32>) -> (r: Option<Vec<char>>)
        ensures
            opt_view(r) == match uid {
                Some(u) => match note_get(self@.bind_lock, u) {
                    Some(v) => Some(v),
                    None => match uid_category(u) {
                        Some(c) => lock_get(self@.lock, c),
                        None => None,
                    },
                },
                None => None,
            },
    {
        match uid {
            None => None,
            Some(u) => match self.bind_lock.get(u) {
                Some(v) => Some(v),
                None => match tool_uid_multi_lock_category(u) {
                    None => None,
                    Some(c) => self.tool_multi_lock_secs.get(c),
                },
            },
        }
    }
}

impl Default for Config {
    fn default() -> (r: Config)
        ensures
            r@ == default_model(),
    {
        Config {
            arts: Binds::new(),
            tools: Binds::new(),
            tool_on_t: None,
            tool_on_q: None,
            rl_window_secs: None,
            boot_console: false,
            tool_multi_lock_secs: LockSecs::new(),
            bind_lock: BindLocks::new(),
        }
    }
}

} // verus!

verus! {

//----------------------------------------------------------------------------
//  Laws
//----------------------------------------------------------------------------

/// The binds, the bare-`t` and the bare-`q` tool of a cfg.
pub open spec fn binds_of(c: ConfigModel) -> (Seq<(u8, u32)>, Seq<(u8, u32)>, Option<u32>, Option<u32>) {
    (c.arts, c.tools, c.tool_on_t, c.tool_on_q)
}

/// Nothing already bound is rebound by `c2`, comparing to `c1`.
pub open spec fn keeps_binds(c1: ConfigModel, c2: ConfigModel) -> bool {
    &&& forall|k: u8| bind_get(c1.arts, k) is Some ==> #[trigger] bind_get(c2.arts, k) == bind_get(c1.arts, k)
    &&& forall|k: u8| bind_get(c1.tools, k) is Some ==> #[trigger] bind_get(c2.tools, k) == bind_get(c1.tools, k)
    &&& c1.tool_on_t is Some ==> c2.tool_on_t == c1.tool_on_t
    &&& c1.tool_on_q is Some ==> c2.tool_on_q == c1.tool_on_q
}

proof fn lemma_keeps_binds_trans(c1: ConfigModel, c2: ConfigModel, c3: ConfigModel)
    requires
        keeps_binds(c1, c2),
        keeps_binds(c2, c3),
    ensures
        keeps_binds(c1, c3),
{
    assert forall|k: u8| bind_get(c1.arts, k) is Some implies #[trigger] bind_get(c3.arts, k) == bind_get(c1.arts, k) by {
        assert(bind_get(c2.arts, k) == bind_get(c1.arts, k));
    }
    assert forall|k: u8| bind_get(c1.tools, k) is Some implies #[trigger] bind_get(c3.tools, k) == bind_get(c1.tools, k) by {
        assert(bind_get(c2.tools, k) == bind_get(c1.tools, k));
    }
}

proof fn lemma_tool_alts_keep(c: ConfigModel, alts: Seq<Seq<char>>, id: u32)
    ensures
        keeps_binds(c, apply_tool_alts(c, alts, id)),
    decreases alts.len(),
{
    if alts.len() > 0 {
        let c1 = apply_tool_alts(c, alts.drop_last(), id);
        lemma_tool_alts_keep(c, alts.drop_last(), id);
        let c2 = apply_tool_alt(c1, alts.last(), id);
        match tool_motion_of(bind_parts(alts.last()).0) {
            Some(ToolMotion::Combo(k)) => {
                assert forall|key: u8| bind_get(c1.tools, key) is Some implies #[trigger] bind_get(c2.tools, key) == bind_get(c1.tools, key) by {
                    crate::binds::lemma_bind_insert_keeps(c1.tools, tool_code(k), id, key);
                }
            },
            _ => {},
        }
        assert(keeps_binds(c1, c2));
        lemma_keeps_binds_trans(c, c1, c2);
    }
}

proof fn lemma_art_alts_keep(c: ConfigModel, alts: Seq<Seq<char>>, id: u32)
    ensures
        keeps_binds(c, apply_art_alts(c, alts, id)),
    decreases alts.len(),
{
    if alts.len() > 0 {
        let c1 = apply_art_alts(c, alts.drop_last(), id);
        lemma_art_alts_keep(c, alts.drop_last(), id);
        let c2 = apply_art_alt(c1, alts.last(), id);
        match art_combo_of(alts.last()) {
            Some(k) => {
                assert forall|key: u8| bind_get(c1.arts, key) is Some implies #[trigger] bind_get(c2.arts, key) == bind_get(c1.arts, key) by {
                    crate::binds::lemma_bind_insert_keeps(c1.arts, art_code(k), id, key);
                }
            },
            None => {},
        }
        assert(keeps_binds(c1, c2));
        lemma_keeps_binds_trans(c, c1, c2);
    }
}

proof fn lemma_apply_line_keeps(c: ConfigModel, line: Seq<char>)
    ensures
        keeps_binds(c, apply_line(c, line)),
{
    let ws = words(line);
    let n = until_hash_len(ws);
    if n >= 2 {
        lemma_tool_alts_keep(c, alternates(ws[n - 1]), parse_u32(ws[0]).unwrap_or(0));
        lemma_art_alts_keep(c, alternates(ws[n - 1]), parse_u32(ws[0]).unwrap_or(0));
    }
}

/// The first bind wins: once a combo, the bare `t` or the bare `q` is bound
/// by the first `i` lines of a cfg, no later line changes what it is bound to.
pub proof fn law_first_bind_wins(ls: Seq<Seq<char>>, i: int)
    requires
        0 <= i <= ls.len(),
    ensures
        keeps_binds(config_of_lines(ls.take(i)), config_of_lines(ls)),
    decreases ls.len() - i,
{
    if i == ls.len() {
        assert(ls.take(i) =~= ls);
    } else {
        law_first_bind_wins(ls, i + 1);
        assert(ls.take(i + 1).drop_last() =~= ls.take(i));
        lemma_apply_line_keeps(config_of_lines(ls.take(i)), ls[i]);
        lemma_keeps_binds_trans(config_of_lines(ls.take(i)), config_of_lines(ls.take(i + 1)), config_of_lines(ls));
    }
}

proof fn lemma_first_word_is_trim_head(s: Seq<char>)
    requires
        trim(s).len() > 0,
    ensures
        words(s).len() > 0,
        words(s)[0].len() > 0,
        words(s)[0][0] == trim(s)[0],
{
    crate::text::lemma_find_first(s, Cls::NonWs);
    let a = find_first(s, Cls::NonWs).unwrap();
    let t = s.skip(a);
    crate::text::lemma_find_first(t, Cls::Ws);
    crate::text::lemma_find_last(t, Cls::NonWs);
    assert(t[0] == s[a]);
    assert(!crate::text::in_cls(Cls::Ws, t[0]));
}

/// A comment line (first non-blank character `#`) binds nothing.
pub proof fn law_comment_line_binds_nothing(c: ConfigModel, line: Seq<char>)
    requires
        trim(line).len() > 0,
        trim(line)[0] == '#',
    ensures
        binds_of(apply_line(c, line)) == binds_of(c),
{
    lemma_first_word_is_trim_head(line);
    assert(is_hash_word(words(line)[0]));
    assert(until_hash_len(words(line)) == 0);
}

/// A line whose UID is neither a combat art (5000..=10000) nor a prosthetic
/// (70000..=100000) binds nothing.
pub proof fn law_out_of_range_uid_ignored(c: ConfigModel, line: Seq<char>)
    requires
        words(line).len() > 0,
        parse_u32(words(line)[0]) matches Some(id) && !(5000 <= id <= 10000) && !(70000 <= id
            <= 100000),
    ensures
        binds_of(apply_line(c, line)) == binds_of(c),
{
    let ws = words(line);
    assert(ws[0][0] != '#');
    assert(until_hash_len(ws) >= 1) by {
        assert(!is_hash_word(ws[0]));
    }
}

/// A lock suffix changes no bind: `↑q-0.5s` binds just what `↑q` binds.
pub proof fn law_lock_suffix_binds_as_motion(c: ConfigModel, alt: Seq<char>, id: u32)
    ensures
        binds_of(apply_tool_alt(c, alt, id)) == binds_of(apply_tool_alt(c, bind_parts(alt).0, id)),
{
    lemma_find_first(alt, Cls::Dash);
    if let Some(i) = find_first(alt, Cls::Dash) {
        let m = alt.take(i);
        lemma_find_first(m, Cls::Dash);
        if let Some(k) = find_first(m, Cls::Dash) {
            assert(m[k] == alt[k]);
        }
        assert(bind_parts(m) == (m, None::<Seq<char>>));
    }
}

proof fn lemma_split_join(a: Seq<char>, b: Seq<char>)
    ensures
        split_all(a + seq!['\n'] + b, Cls::Newline) == split_all(a, Cls::Newline) + split_all(b, Cls::Newline),
    decreases a.len(),
{
    let j = a + seq!['\n'] + b;
    lemma_find_first(a, Cls::Newline);
    match find_first(a, Cls::Newline) {
        Some(i) => {
            assert forall|x: int| 0 <= x < i implies !crate::text::in_cls(Cls::Newline, #[trigger] j[x]) by {
                assert(j[x] == a[x]);
            }
            assert(j[i] == a[i]);
            crate::text::lemma_find_first_is(j, Cls::Newline, i);
            assert(j.take(i) =~= a.take(i));
            assert(j.skip(i + 1) =~= a.skip(i + 1) + seq!['\n'] + b);
            lemma_split_join(a.skip(i + 1), b);
            assert(split_all(j, Cls::Newline) =~= seq![a.take(i)] + split_all(a.skip(i + 1) + seq!['\n'] + b, Cls::Newline));
            assert(split_all(a, Cls::Newline) =~= seq![a.take(i)] + split_all(a.skip(i + 1), Cls::Newline));
            assert(split_all(j, Cls::Newline) =~= split_all(a, Cls::Newline) + split_all(b, Cls::Newline));
        },
        None => {
            assert forall|x: int| 0 <= x < a.len() implies !crate::text::in_cls(Cls::Newline, #[trigger] j[x]) by {
                assert(j[x] == a[x]);
            }
            assert(j[a.len() as int] == '\n');
            crate::text::lemma_find_first_is(j, Cls::Newline, a.len() as int);
            assert(j.take(a.len() as int) =~= a);
            assert(j.skip(a.len() as int + 1) =~= b);
            assert(split_all(j, Cls::Newline) =~= seq![a] + split_all(b, Cls::Newline));
        },
    }
}

/// Lines appended to a cfg never rebind: every combo, the bare `t` and the
/// bare `q` bound by a text stay bound to the same UID when more lines follow
/// it (`format!("{s}\n{t}")`).
pub proof fn law_appended_lines_never_rebind(s: Seq<char>, t: Seq<char>)
    ensures
        keeps_binds(config_of_text(s), config_of_text(s + seq!['\n'] + t)),
{
    lemma_split_join(s, t);
    let ls = lines_of(s);
    let lt = lines_of(t);
    assert(lines_of(s + seq!['\n'] + t) =~= ls + lt);
    law_first_bind_wins(ls + lt, ls.len() as int);
    assert((ls + lt).take(ls.len() as int) =~= ls);
}

/// No combo occurs twice among the art binds, nor among the tool binds.
pub open spec fn binds_unique(c: ConfigModel) -> bool {
    keys_unique(c.arts) && keys_unique(c.tools)
}

proof fn lemma_tool_alts_unique(c: ConfigModel, alts: Seq<Seq<char>>, id: u32)
    requires
        binds_unique(c),
    ensures
        binds_unique(apply_tool_alts(c, alts, id)),
    decreases alts.len(),
{
    if alts.len() > 0 {
        lemma_tool_alts_unique(c, alts.drop_last(), id);
        let c1 = apply_tool_alts(c, alts.drop_last(), id);
        if let Some(ToolMotion::Combo(k)) = tool_motion_of(bind_parts(alts.last()).0) {
            lemma_bind_insert_unique(c1.tools, tool_code(k), id);
        }
    }
}

proof fn lemma_art_alts_unique(c: ConfigModel, alts: Seq<Seq<char>>, id: u32)
    requires
        binds_unique(c),
    ensures
        binds_unique(apply_art_alts(c, alts, id)),
    decreases alts.len(),
{
    if alts.len() > 0 {
        lemma_art_alts_unique(c, alts.drop_last(), id);
        let c1 = apply_art_alts(c, alts.drop_last(), id);
        if let Some(k) = art_combo_of(alts.last()) {
            lemma_bind_insert_unique(c1.arts, art_code(k), id);
        }
    }
}

/// Every cfg text binds each combo at most once: its art binds and its tool
/// binds hold no combo twice.
pub proof fn law_binds_unique(ls: Seq<Seq<char>>)
    ensures
        binds_unique(config_of_lines(ls)),
    decreases ls.len(),
{
    if ls.len() > 0 {
        law_binds_unique(ls.drop_last());
        let c = config_of_lines(ls.drop_last());
        let ws = words(ls.last());
        let n = until_hash_len(ws);
        if n >= 2 {
            lemma_tool_alts_unique(c, alternates(ws[n - 1]), parse_u32(ws[0]).unwrap_or(0));
            lemma_art_alts_unique(c, alternates(ws[n - 1]), parse_u32(ws[0]).unwrap_or(0));
        }
    }
}

/// A lock comment names each family by its Chinese or its English name, in
/// any case and with any surrounding white space: 手里剑 / shuriken, 伞 /
/// umbrella, 雾鸦 / mist raven (mistraven, mist), 爆竹 / firecracker, 锈丸 /
/// sabimaru.
pub proof fn law_lock_family_names(name: Seq<char>)
    ensures
        (lower(trim(name)) == "手里剑"@ || lower(trim(name)) == "shuriken"@) ==> category_of(name) == Some(
            ToolMultiLockCategory::Shuriken,
        ),
        (lower(trim(name)) == "伞"@ || lower(trim(name)) == "umbrella"@) ==> category_of(name) == Some(
            ToolMultiLockCategory::Umbrella,
        ),
        (lower(trim(name)) == "雾鸦"@ || lower(trim(name)) == "mist raven"@ || lower(trim(name)) == "mistraven"@
            || lower(trim(name)) == "mist"@) ==> category_of(name) == Some(ToolMultiLockCategory::MistRaven),
        (lower(trim(name)) == "爆竹"@ || lower(trim(name)) == "firecracker"@) ==> category_of(name) == Some(
            ToolMultiLockCategory::Firecracker,
        ),
        (lower(trim(name)) == "锈丸"@ || lower(trim(name)) == "sabimaru"@) ==> category_of(name) == Some(
            ToolMultiLockCategory::Sabimaru,
        ),
{
    reveal_strlit("手里剑");
    reveal_strlit("shuriken");
    reveal_strlit("伞");
    reveal_strlit("umbrella");
    reveal_strlit("雾鸦");
    reveal_strlit("mist raven");
    reveal_strlit("mistraven");
    reveal_strlit("mist");
    reveal_strlit("爆竹");
    reveal_strlit("firecracker");
    reveal_strlit("锈丸");
    reveal_strlit("sabimaru");
    assert("手里剑"@.len() == 3 && "手里剑"@[0] == '手' && "手里剑"@[1] == '里');
    assert("shuriken"@.len() == 8 && "shuriken"@[0] == 's' && "shuriken"@[1] == 'h');
    assert("伞"@.len() == 1 && "伞"@[0] == '伞');
    assert("umbrella"@.len() == 8 && "umbrella"@[0] == 'u' && "umbrella"@[1] == 'm');
    assert("雾鸦"@.len() == 2 && "雾鸦"@[0] == '雾' && "雾鸦"@[1] == '鸦');
    assert("mist raven"@.len() == 10 && "mist raven"@[0] == 'm' && "mist raven"@[1] == 'i');
    assert("mistraven"@.len() == 9 && "mistraven"@[0] == 'm' && "mistraven"@[1] == 'i');
    assert("mist"@.len() == 4 && "mist"@[0] == 'm' && "mist"@[1] == 'i');
    assert("爆竹"@.len() == 2 && "爆竹"@[0] == '爆' && "爆竹"@[1] == '竹');
    assert("firecracker"@.len() == 11 && "firecracker"@[0] == 'f' && "firecracker"@[1] == 'i');
    assert("锈丸"@.len() == 2 && "锈丸"@[0] == '锈' && "锈丸"@[1] == '丸');
    assert("sabimaru"@.len() == 8 && "sabimaru"@[0] == 's' && "sabimaru"@[1] == 'a');
}

/// The family lock settings read back what was set: after setting family `c`
/// to `v`, family `c` reads `v`, and every other family reads what it read
/// before.
pub proof fn law_lock_set_then_get(m: LockModel, c: ToolMultiLockCategory, v: Seq<char>, c2: ToolMultiLockCategory)
    ensures
        lock_get(lock_set(m, c, v), c) == Some(v),
        c2 != c ==> lock_get(lock_set(m, c, v), c2) == lock_get(m, c2),
{
}

} // verus!




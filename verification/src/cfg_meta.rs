//! Comment settings of the cfg file: `# key: value` lines.
use vstd::prelude::*;

use crate::text::{
    chars_of, copy_chars, eq_lit, find_first, find_first_exec, lemma_find_first, lines_exec, lines_of,
    lower, lower_exec, opt_view, slice_of, strip_hashes, strip_hashes_exec, trim, trim_exec, views,
    Cls,
};

verus! {

/// The text after the leading `#`s of a comment line, trimmed; `None` for other lines.
pub open spec fn comment_body(line: Seq<char>) -> Option<Seq<char>> {
    let text = trim(line);
    if text.len() > 0 && text[0] == '#' {
        Some(trim(strip_hashes(text)))
    } else {
        None
    }
}

/// What comes before the first `:`/`：` (the whole text when there is none).
pub open spec fn colon_piece0(body: Seq<char>) -> Seq<char> {
    match find_first(body, Cls::Colon) {
        Some(i) => body.take(i),
        None => body,
    }
}

/// What lies between the first and the second `:`/`：` (to the end when there is
/// no second); `None` when the text has no `:`/`：` at all.
pub open spec fn colon_piece1(body: Seq<char>) -> Option<Seq<char>> {
    match find_first(body, Cls::Colon) {
        None => None,
        Some(i) => {
            let r = body.skip(i + 1);
            Some(
                match find_first(r, Cls::Colon) {
                    Some(j) => r.take(j),
                    None => r,
                },
            )
        },
    }
}

/// The setting's name: the first piece, trimmed and ASCII lower-cased.
pub open spec fn comment_key(body: Seq<char>) -> Seq<char> {
    lower(trim(colon_piece0(body)))
}

/// The values that switch the boot console on.
pub open spec fn on_off(val: Seq<char>) -> bool {
    val == "开"@ || val == "on"@ || val == "1"@ || val == "true"@ || val == "yes"@ || val
        == "是"@
}

/// `# 启动信息print窗口: 关` / `# 启动窗口: …` / `# boot console: …`.
pub open spec fn boot_console_of(line: Seq<char>) -> Option<bool> {
    match comment_body(line) {
        None => None,
        Some(body) => {
            let key = comment_key(body);
            if key == "启动信息print窗口"@ || key == "启动窗口"@ || key == "boot console"@ {
                match colon_piece1(body) {
                    None => None,
                    Some(v) => Some(on_off(lower(trim(v)))),
                }
            } else {
                None
            }
        },
    }
}

/// The first boot-console comment of the lines decides; without one it is off.
pub open spec fn boot_console_of_lines(lines: Seq<Seq<char>>) -> bool
    decreases lines.len(),
{
    if lines.len() == 0 {
        false
    } else {
        match boot_console_of(lines[0]) {
            Some(v) => v,
            None => boot_console_of_lines(lines.drop_first()),
        }
    }
}

pub fn comment_body_exec(line: &Vec<char>) -> (r: Option<Vec<char>>)
    ensures
        opt_view(r) == comment_body(line@),
{
    let text = trim_exec(line);
    if text.len() > 0 && text[0] == '#' {
        let s = strip_hashes_exec(&text);
        Some(trim_exec(&s))
    } else {
        None
    }
}

pub fn colon_piece0_exec(body: &Vec<char>) -> (r: Vec<char>)
    ensures
        r@ == colon_piece0(body@),
{
    proof {
        lemma_find_first(body@, Cls::Colon);
    }
    match find_first_exec(body, Cls::Colon) {
        Some(i) => slice_of(body, 0, i),
        None => copy_chars(body),
    }
}

pub fn colon_piece1_exec(body: &Vec<char>) -> (r: Option<Vec<char>>)
    ensures
        opt_view(r) == colon_piece1(body@),
{
    proof {
        lemma_find_first(body@, Cls::Colon);
    }
    match find_first_exec(body, Cls::Colon) {
        None => None,
        Some(i) => {
            assert(i < body.len());
            let r = slice_of(body, i + 1, body.len());
            proof {
                lemma_find_first(r@, Cls::Colon);
            }
            match find_first_exec(&r, Cls::Colon) {
                Some(j) => Some(slice_of(&r, 0, j)),
                None => Some(r),
            }
        },
    }
}

pub fn comment_key_exec(body: &Vec<char>) -> (r: Vec<char>)
    ensures
        r@ == comment_key(body@),
{
    let p = colon_piece0_exec(body);
    let t = trim_exec(&p);
    lower_exec(&t)
}

/// Whether a boot-console value switches the console on; any value not known
/// as "on" counts as off.
pub fn parse_on_off_token(val: &Vec<char>) -> (r: bool)
    ensures
        r == on_off(val@),
{
    eq_lit(val, "开") || eq_lit(val, "on") || eq_lit(val, "1") || eq_lit(val, "true") || eq_lit(
        val,
        "yes",
    ) || eq_lit(val, "是")
}

pub fn boot_console_of_chars(line: &Vec<char>) -> (r: Option<bool>)
    ensures
        r == boot_console_of(line@),
{
    let body = match comment_body_exec(line) {
        None => {
            return None;
        },
        Some(b) => b,
    };
    let key = comment_key_exec(&body);
    if eq_lit(&key, "启动信息print窗口") || eq_lit(&key, "启动窗口") || eq_lit(&key, "boot console") {
        match colon_piece1_exec(&body) {
            None => None,
            Some(v) => {
                let t = trim_exec(&v);
                let l = lower_exec(&t);
                Some(parse_on_off_token(&l))
            },
        }
    } else {
        None
    }
}

/// `# 启动信息print窗口: 关` / `# boot console: off` (legacy key: `启动窗口`).
/// `Some(true)` for an "on" value, `Some(false)` for any other value, `None`
/// when the line is not such a comment.
pub fn parse_boot_console_comment(line: &str) -> (r: Option<bool>)
    ensures
        r == boot_console_of(line@),
{
    let l = chars_of(line);
    boot_console_of_chars(&l)
}

/// The boot console setting of a whole cfg text: the first boot-console comment
/// decides, and the console is off when there is none.
pub fn boot_console_from_content(content: &str) -> (r: bool)
    ensures
        r == boot_console_of_lines(lines_of(content@)),
{
    let text = chars_of(content);
    let lines = lines_exec(&text);
    let mut i: usize = 0;
    assert(lines_of(content@).skip(0) =~= lines_of(content@));
    while i < lines.len()
        invariant
            i <= lines.len(),
            views(lines@) == lines_of(content@),
            boot_console_of_lines(lines_of(content@)) == boot_console_of_lines(
                lines_of(content@).skip(i as int),
            ),
        decreases lines.len() - i,
    {
        let ghost rest = lines_of(content@).skip(i as int);
        assert(rest[0] == lines@[i as int]@);
        assert(rest.drop_first() =~= lines_of(content@).skip(i + 1));
        match boot_console_of_chars(&lines[i]) {
            Some(v) => {
                return v;
            },
            None => {},
        }
        i = i + 1;
    }
    false
}

} // verus!

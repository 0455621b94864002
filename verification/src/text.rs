//! Character-level text helpers used by the configuration parsers.
//!
//! Every helper works on `Vec<char>` and is tied to a spec function over
//! `Seq<char>`; the parsers state their contracts over those spec functions.
use vstd::prelude::*;

verus! {

/// Classes of characters the parsers search for.
#[derive(Clone, Copy, PartialEq, Eq, Debug)]
pub enum Cls {
    /// Unicode `White_Space` (what `char::is_whitespace` accepts).
    Ws,
    /// Anything that is not `White_Space`.
    NonWs,
    /// ASCII `:` or full-width `：`.
    Colon,
    /// ASCII `,` or full-width `，`.
    Comma,
    /// `/`, the separator of alternative binds.
    Slash,
    /// An ASCII space.
    Space,
    /// A horizontal tab.
    Tab,
    /// Anything but `#`.
    NotHash,
    /// Anything that is neither an ASCII digit nor `.`.
    NotNumChar,
    /// An ASCII digit or `.`.
    NumChar,
    /// `-`, which opens the lock suffix of a prosthetic bind.
    Dash,
    /// `.`, the decimal point.
    Dot,
    /// A line feed.
    Newline,
}

/// Unicode `White_Space` property, the set `char::is_whitespace` accepts.
pub open spec fn is_ws(c: char) -> bool {
    ||| c == '\t' || c == '\n' || c == '\u{0B}' || c == '\u{0C}' || c == '\r' || c == ' '
    ||| c == '\u{85}' || c == '\u{A0}' || c == '\u{1680}'
    ||| ('\u{2000}' <= c && c <= '\u{200A}')
    ||| c == '\u{2028}' || c == '\u{2029}' || c == '\u{202F}' || c == '\u{205F}'
    ||| c == '\u{3000}'
}

pub open spec fn is_digit(c: char) -> bool {
    '0' <= c && c <= '9'
}

pub open spec fn in_cls(k: Cls, c: char) -> bool {
    match k {
        Cls::Ws => is_ws(c),
        Cls::NonWs => !is_ws(c),
        Cls::Colon => c == ':' || c == '：',
        Cls::Comma => c == ',' || c == '，',
        Cls::Slash => c == '/',
        Cls::Space => c == ' ',
        Cls::Tab => c == '\t',
        Cls::NotHash => c != '#',
        Cls::NotNumChar => !(is_digit(c) || c == '.'),
        Cls::NumChar => is_digit(c) || c == '.',
        Cls::Dash => c == '-',
        Cls::Dot => c == '.',
        Cls::Newline => c == '\n',
    }
}

pub fn is_in(k: Cls, c: char) -> (b: bool)
    ensures
        b == in_cls(k, c),
{
    match k {
        Cls::Ws => is_ws_exec(c),
        Cls::NonWs => !is_ws_exec(c),
        Cls::Colon => c == ':' || c == '：',
        Cls::Comma => c == ',' || c == '，',
        Cls::Slash => c == '/',
        Cls::Space => c == ' ',
        Cls::Tab => c == '\t',
        Cls::NotHash => c != '#',
        Cls::NotNumChar => !(('0' <= c && c <= '9') || c == '.'),
        Cls::NumChar => ('0' <= c && c <= '9') || c == '.',
        Cls::Dash => c == '-',
        Cls::Dot => c == '.',
        Cls::Newline => c == '\n',
    }
}

pub fn is_ws_exec(c: char) -> (b: bool)
    ensures
        b == is_ws(c),
{
    c == '\t' || c == '\n' || c == '\u{0B}' || c == '\u{0C}' || c == '\r' || c == ' '
        || c == '\u{85}' || c == '\u{A0}' || c == '\u{1680}' || ('\u{2000}' <= c && c
        <= '\u{200A}') || c == '\u{2028}' || c == '\u{2029}' || c == '\u{202F}' || c
        == '\u{205F}' || c == '\u{3000}'
}

/// ASCII lower-casing of one character (`char::to_ascii_lowercase`).
pub open spec fn lower_char(c: char) -> char {
    if 'A' <= c && c <= 'Z' {
        ((c as u32) + 32) as char
    } else {
        c
    }
}

pub fn lower_char_exec(c: char) -> (r: char)
    ensures
        r == lower_char(c),
{
    if 'A' <= c && c <= 'Z' {
        let b: u8 = (c as u8) + 32;
        b as char
    } else {
        c
    }
}

/// ASCII lower-casing of a text (`str::to_ascii_lowercase`).
pub open spec fn lower(s: Seq<char>) -> Seq<char> {
    s.map_values(|c: char| lower_char(c))
}

/// Index of the first character of class `k`.
pub open spec fn find_first(s: Seq<char>, k: Cls) -> Option<int>
    decreases s.len(),
{
    if s.len() == 0 {
        None
    } else if in_cls(k, s[0]) {
        Some(0)
    } else {
        match find_first(s.drop_first(), k) {
            Some(i) => Some(i + 1),
            None => None,
        }
    }
}

/// Index of the last character of class `k`.
pub open spec fn find_last(s: Seq<char>, k: Cls) -> Option<int>
    decreases s.len(),
{
    if s.len() == 0 {
        None
    } else if in_cls(k, s.last()) {
        Some(s.len() - 1)
    } else {
        find_last(s.drop_last(), k)
    }
}

pub proof fn lemma_find_first(s: Seq<char>, k: Cls)
    ensures
        match find_first(s, k) {
            Some(i) => 0 <= i < s.len() && in_cls(k, s[i]) && forall|j: int|
                0 <= j < i ==> !in_cls(k, #[trigger] s[j]),
            None => forall|j: int| 0 <= j < s.len() ==> !in_cls(k, #[trigger] s[j]),
        },
    decreases s.len(),
{
    if s.len() > 0 && !in_cls(k, s[0]) {
        lemma_find_first(s.drop_first(), k);
        assert forall|j: int| 0 < j < s.len() implies s[j] == s.drop_first()[j - 1] by {}
    }
}

pub proof fn lemma_find_last(s: Seq<char>, k: Cls)
    ensures
        match find_last(s, k) {
            Some(i) => 0 <= i < s.len() && in_cls(k, s[i]) && forall|j: int|
                i < j < s.len() ==> !in_cls(k, #[trigger] s[j]),
            None => forall|j: int| 0 <= j < s.len() ==> !in_cls(k, #[trigger] s[j]),
        },
    decreases s.len(),
{
    if s.len() > 0 && !in_cls(k, s.last()) {
        lemma_find_last(s.drop_last(), k);
        assert forall|j: int| 0 <= j < s.len() - 1 implies s[j] == s.drop_last()[j] by {}
    }
}

/// A first index found by scanning is the one `find_first` names.
pub proof fn lemma_find_first_is(s: Seq<char>, k: Cls, i: int)
    requires
        0 <= i <= s.len(),
        forall|j: int| 0 <= j < i ==> !in_cls(k, #[trigger] s[j]),
        i < s.len() ==> in_cls(k, s[i]),
    ensures
        find_first(s, k) == (if i < s.len() { Some(i) } else { None::<int> }),
{
    lemma_find_first(s, k);
    match find_first(s, k) {
        Some(f) => {
            if f < i {
                assert(!in_cls(k, s[f]));
            }
            if i < f {
                assert(!in_cls(k, s[i]));
            }
        },
        None => {
            if i < s.len() {
                assert(!in_cls(k, s[i]));
            }
        },
    }
}

pub fn find_first_exec(s: &Vec<char>, k: Cls) -> (r: Option<usize>)
    ensures
        match r {
            Some(i) => find_first(s@, k) == Some(i as int),
            None => find_first(s@, k) == None::<int>,
        },
{
    let mut i: usize = 0;
    while i < s.len()
        invariant
            i <= s.len(),
            forall|j: int| 0 <= j < i ==> !in_cls(k, #[trigger] s@[j]),
        decreases s.len() - i,
    {
        if is_in(k, s[i]) {
            proof {
                lemma_find_first_is(s@, k, i as int);
            }
            return Some(i);
        }
        i = i + 1;
    }
    proof {
        lemma_find_first_is(s@, k, i as int);
    }
    None
}

pub fn find_last_exec(s: &Vec<char>, k: Cls) -> (r: Option<usize>)
    ensures
        match r {
            Some(i) => find_last(s@, k) == Some(i as int),
            None => find_last(s@, k) == None::<int>,
        },
{
    let mut i: usize = s.len();
    while i > 0
        invariant
            i <= s.len(),
            forall|j: int| i <= j < s.len() ==> !in_cls(k, #[trigger] s@[j]),
        decreases i,
    {
        if is_in(k, s[i - 1]) {
            proof {
                lemma_find_last(s@, k);
                match find_last(s@, k) {
                    Some(f) => {
                        if f < i - 1 {
                            assert(!in_cls(k, s@[i - 1]));
                        }
                    },
                    None => {
                        assert(!in_cls(k, s@[i - 1]));
                    },
                }
            }
            return Some(i - 1);
        }
        i = i - 1;
    }
    proof {
        lemma_find_last(s@, k);
        if let Some(f) = find_last(s@, k) {
            assert(!in_cls(k, s@[f]));
        }
    }
    None
}

/// A copy of `s[lo..hi]`.
pub fn slice_of(s: &Vec<char>, lo: usize, hi: usize) -> (r: Vec<char>)
    requires
        lo <= hi <= s.len(),
    ensures
        r@ == s@.subrange(lo as int, hi as int),
{
    let mut r: Vec<char> = Vec::new();
    let mut i = lo;
    while i < hi
        invariant
            lo <= i <= hi <= s.len(),
            r@ == s@.subrange(lo as int, i as int),
        decreases hi - i,
    {
        r.push(s[i]);
        i = i + 1;
        assert(r@ == s@.subrange(lo as int, i as int));
    }
    r
}

/// A copy of `s`.
pub fn copy_chars(s: &Vec<char>) -> (r: Vec<char>)
    ensures
        r@ == s@,
{
    let r = slice_of(s, 0, s.len());
    assert(r@ =~= s@);
    r
}

/// `str::trim_start`.
pub open spec fn trim_start(s: Seq<char>) -> Seq<char> {
    match find_first(s, Cls::NonWs) {
        Some(i) => s.skip(i),
        None => Seq::empty(),
    }
}

/// `str::trim_end`.
pub open spec fn trim_end(s: Seq<char>) -> Seq<char> {
    match find_last(s, Cls::NonWs) {
        Some(i) => s.take(i + 1),
        None => Seq::empty(),
    }
}

/// `str::trim`: no leading and no trailing `White_Space`.
pub open spec fn trim(s: Seq<char>) -> Seq<char> {
    trim_end(trim_start(s))
}

/// `str::trim_start_matches('#')`: all leading `#` removed.
pub open spec fn strip_hashes(s: Seq<char>) -> Seq<char> {
    match find_first(s, Cls::NotHash) {
        Some(i) => s.skip(i),
        None => Seq::empty(),
    }
}

/// The longest prefix made of ASCII digits and `.` only.
pub open spec fn numeric_prefix(s: Seq<char>) -> Seq<char> {
    match find_first(s, Cls::NotNumChar) {
        Some(i) => s.take(i),
        None => s,
    }
}

pub fn trim_start_exec(s: &Vec<char>) -> (r: Vec<char>)
    ensures
        r@ == trim_start(s@),
{
    proof {
        lemma_find_first(s@, Cls::NonWs);
    }
    match find_first_exec(s, Cls::NonWs) {
        Some(i) => slice_of(s, i, s.len()),
        None => Vec::new(),
    }
}

pub fn trim_end_exec(s: &Vec<char>) -> (r: Vec<char>)
    ensures
        r@ == trim_end(s@),
{
    proof {
        lemma_find_last(s@, Cls::NonWs);
    }
    match find_last_exec(s, Cls::NonWs) {
        Some(i) => {
            assert(i < s.len());
            slice_of(s, 0, i + 1)
        },
        None => Vec::new(),
    }
}

pub fn trim_exec(s: &Vec<char>) -> (r: Vec<char>)
    ensures
        r@ == trim(s@),
{
    let t = trim_start_exec(s);
    trim_end_exec(&t)
}

pub fn strip_hashes_exec(s: &Vec<char>) -> (r: Vec<char>)
    ensures
        r@ == strip_hashes(s@),
{
    proof {
        lemma_find_first(s@, Cls::NotHash);
    }
    match find_first_exec(s, Cls::NotHash) {
        Some(i) => slice_of(s, i, s.len()),
        None => Vec::new(),
    }
}

pub fn numeric_prefix_exec(s: &Vec<char>) -> (r: Vec<char>)
    ensures
        r@ == numeric_prefix(s@),
{
    proof {
        lemma_find_first(s@, Cls::NotNumChar);
    }
    match find_first_exec(s, Cls::NotNumChar) {
        Some(i) => slice_of(s, 0, i),
        None => copy_chars(s),
    }
}

pub fn lower_exec(s: &Vec<char>) -> (r: Vec<char>)
    ensures
        r@ == lower(s@),
{
    let mut r: Vec<char> = Vec::new();
    let mut i: usize = 0;
    while i < s.len()
        invariant
            i <= s.len(),
            r@ == lower(s@.take(i as int)),
        decreases s.len() - i,
    {
        r.push(lower_char_exec(s[i]));
        i = i + 1;
        assert(r@ =~= lower(s@.take(i as int)));
    }
    assert(s@.take(i as int) =~= s@);
    r
}

/// The characters of `s`, in order.
pub fn chars_of(s: &str) -> (res: Vec<char>)
    ensures
        res@ == s@,
{
    let mut res: Vec<char> = Vec::new();
    for c in it: s.chars()
        invariant
            res@ == it.seq().take(it.index() as int),
            it.seq() == s@,
    {
        res.push(c);
    }
    res
}

/// Equality of two character sequences.
pub fn same_chars(a: &Vec<char>, b: &Vec<char>) -> (r: bool)
    ensures
        r == (a@ == b@),
{
    if a.len() != b.len() {
        return false;
    }
    let mut i: usize = 0;
    while i < a.len()
        invariant
            a.len() == b.len(),
            i <= a.len(),
            forall|j: int| 0 <= j < i ==> a@[j] == b@[j],
        decreases a.len() - i,
    {
        if a[i] != b[i] {
            return false;
        }
        i = i + 1;
    }
    assert(a@ =~= b@);
    true
}

/// `s` equals the text `lit`.
pub fn eq_lit(s: &Vec<char>, lit: &str) -> (r: bool)
    ensures
        r == (s@ == lit@),
{
    let l = chars_of(lit);
    same_chars(s, &l)
}

pub open spec fn starts_with(s: Seq<char>, p: Seq<char>) -> bool {
    p.len() <= s.len() && s.take(p.len() as int) == p
}

pub fn starts_with_exec(s: &Vec<char>, p: &Vec<char>) -> (r: bool)
    ensures
        r == starts_with(s@, p@),
{
    if p.len() > s.len() {
        return false;
    }
    let head = slice_of(s, 0, p.len());
    same_chars(&head, p)
}

/// `str::trim_start_matches(p)` for a text pattern: every leading copy of `p` removed.
pub open spec fn strip_prefix_all(s: Seq<char>, p: Seq<char>) -> Seq<char>
    decreases s.len(),
{
    if p.len() > 0 && starts_with(s, p) {
        strip_prefix_all(s.skip(p.len() as int), p)
    } else {
        s
    }
}

pub fn strip_prefix_all_exec(s: &Vec<char>, p: &Vec<char>) -> (r: Vec<char>)
    ensures
        r@ == strip_prefix_all(s@, p@),
    decreases s.len(),
{
    if p.len() > 0 && starts_with_exec(s, p) {
        let rest = slice_of(s, p.len(), s.len());
        strip_prefix_all_exec(&rest, p)
    } else {
        copy_chars(s)
    }
}

/// Pieces of `s` between the characters of class `k` (`str::split`).
pub open spec fn split_all(s: Seq<char>, k: Cls) -> Seq<Seq<char>>
    decreases s.len(),
{
    match find_first(s, k) {
        Some(i) => {
            if 0 <= i < s.len() {
                seq![s.take(i)] + split_all(s.skip(i + 1), k)
            } else {
                seq![s]
            }
        },
        None => seq![s],
    }
}

pub open spec fn views(v: Seq<Vec<char>>) -> Seq<Seq<char>> {
    v.map_values(|x: Vec<char>| x@)
}

pub fn split_all_exec(s: &Vec<char>, k: Cls) -> (r: Vec<Vec<char>>)
    ensures
        views(r@) == split_all(s@, k),
    decreases s.len(),
{
    proof {
        lemma_find_first(s@, k);
    }
    match find_first_exec(s, k) {
        Some(i) => {
            let head = slice_of(s, 0, i);
            let rest = slice_of(s, i + 1, s.len());
            let mut tail = split_all_exec(&rest, k);
            let mut r: Vec<Vec<char>> = Vec::new();
            r.push(head);
            let ghost tv = tail@;
            r.append(&mut tail);
            assert(views(r@) =~= seq![s@.take(i as int)] + views(tv));
            r
        },
        None => {
            let mut r: Vec<Vec<char>> = Vec::new();
            r.push(copy_chars(s));
            assert(views(r@) =~= seq![s@]);
            r
        },
    }
}

/// The words of `s`: maximal runs of non-`White_Space` (`str::split_whitespace`).
pub open spec fn words(s: Seq<char>) -> Seq<Seq<char>>
    decreases s.len(),
{
    match find_first(s, Cls::NonWs) {
        None => Seq::empty(),
        Some(a) => {
            if 0 <= a < s.len() {
                let t = s.skip(a);
                match find_first(t, Cls::Ws) {
                    None => seq![t],
                    Some(b) => {
                        if 0 < b <= t.len() {
                            seq![t.take(b)] + words(t.skip(b))
                        } else {
                            seq![t]
                        }
                    },
                }
            } else {
                Seq::empty()
            }
        },
    }
}

pub fn words_exec(s: &Vec<char>) -> (r: Vec<Vec<char>>)
    ensures
        views(r@) == words(s@),
    decreases s.len(),
{
    proof {
        lemma_find_first(s@, Cls::NonWs);
    }
    match find_first_exec(s, Cls::NonWs) {
        None => Vec::new(),
        Some(a) => {
            let t = slice_of(s, a, s.len());
            proof {
                lemma_find_first(t@, Cls::Ws);
                assert(!in_cls(Cls::Ws, t@[0]));
            }
            match find_first_exec(&t, Cls::Ws) {
                None => {
                    let mut r: Vec<Vec<char>> = Vec::new();
                    r.push(t);
                    assert(views(r@) =~= seq![s@.skip(a as int)]);
                    r
                },
                Some(b) => {
                    let w = slice_of(&t, 0, b);
                    let rest = slice_of(&t, b, t.len());
                    let mut tail = words_exec(&rest);
                    let mut r: Vec<Vec<char>> = Vec::new();
                    r.push(w);
                    let ghost tv = tail@;
                    r.append(&mut tail);
                    assert(views(r@) =~= seq![t@.take(b as int)] + views(tv));
                    r
                },
            }
        },
    }
}

/// Value of a nonempty run of ASCII digits.
pub open spec fn digits_value(s: Seq<char>) -> nat
    decreases s.len(),
{
    if s.len() == 0 {
        0
    } else {
        digits_value(s.drop_last()) * 10 + ((s.last() as u32) - ('0' as u32)) as nat
    }
}

pub open spec fn all_digits(s: Seq<char>) -> bool {
    forall|i: int| 0 <= i < s.len() ==> is_digit(#[trigger] s[i])
}

/// `u32::from_str`: an optional `+`, then one or more ASCII digits, with a value that fits.
pub open spec fn parse_u32(s: Seq<char>) -> Option<u32> {
    let d = if s.len() > 0 && s[0] == '+' {
        s.skip(1)
    } else {
        s
    };
    if d.len() > 0 && all_digits(d) && digits_value(d) <= u32::MAX {
        Some(digits_value(d) as u32)
    } else {
        None
    }
}

proof fn lemma_digits_value_prefix(s: Seq<char>, i: int)
    requires
        0 <= i <= s.len(),
        all_digits(s),
    ensures
        digits_value(s.take(i)) <= digits_value(s),
    decreases s.len() - i,
{
    if i < s.len() {
        lemma_digits_value_prefix(s, i + 1);
        assert(s.take(i + 1).drop_last() =~= s.take(i));
    } else {
        assert(s.take(i) =~= s);
    }
}

pub fn parse_u32_exec(s: &Vec<char>) -> (r: Option<u32>)
    ensures
        r == parse_u32(s@),
{
    let start: usize = if s.len() > 0 && s[0] == '+' {
        1
    } else {
        0
    };
    let ghost d = if s@.len() > 0 && s@[0] == '+' {
        s@.skip(1)
    } else {
        s@
    };
    assert(d =~= s@.skip(start as int));
    assert(parse_u32(s@) == (if d.len() > 0 && all_digits(d) && digits_value(d) <= u32::MAX {
        Some(digits_value(d) as u32)
    } else {
        None
    }));
    if start >= s.len() {
        return None;
    }
    let mut v: u32 = 0;
    let mut i: usize = start;
    while i < s.len()
        invariant
            start <= i <= s.len(),
            d =~= s@.skip(start as int),
            parse_u32(s@) == (if d.len() > 0 && all_digits(d) && digits_value(d) <= u32::MAX {
                Some(digits_value(d) as u32)
            } else {
                None
            }),
            all_digits(d.take(i - start)),
            v as nat == digits_value(d.take(i - start)),
        decreases s.len() - i,
    {
        let c = s[i];
        if !('0' <= c && c <= '9') {
            proof {
                assert(d[i - start] == c);
                assert(!is_digit(d[i - start]));
                assert(!all_digits(d));
            }
            return None;
        }
        let dv: u32 = (c as u32) - ('0' as u32);
        assert(d.take(i - start + 1).drop_last() =~= d.take(i - start));
        if v > (u32::MAX - dv) / 10 {
            proof {
                assert(all_digits(d.take(i - start + 1))) by {
                    assert forall|j: int| 0 <= j < i - start + 1 implies is_digit(
                        #[trigger] d.take(i - start + 1)[j],
                    ) by {
                        if j < i - start {
                            assert(d.take(i - start + 1)[j] == d.take(i - start)[j]);
                        }
                    }
                }
                let x = d.take(i - start + 1);
                assert(x.drop_last() =~= d.take(i - start));
                assert(x.last() == c);
                assert(digits_value(x) == digits_value(x.drop_last()) * 10 + ((x.last() as u32) - ('0' as u32)) as nat);
                assert(digits_value(d.take(i - start + 1)) > u32::MAX) by (nonlinear_arith)
                    requires
                        digits_value(d.take(i - start + 1)) == v * 10 + dv,
                        v > (u32::MAX - dv) / 10,
                        dv <= 9,
                ;
                if all_digits(d) {
                    lemma_digits_value_prefix(d, i - start + 1);
                    assert(digits_value(d) > u32::MAX);
                }
            }
            return None;
        }
        v = v * 10 + dv;
        i = i + 1;
        proof {
            assert forall|j: int| 0 <= j < i - start implies is_digit(
                #[trigger] d.take(i - start)[j],
            ) by {
                if j < i - start - 1 {
                    assert(d.take(i - start)[j] == d.take(i - start - 1)[j]);
                }
            }
        }
    }
    assert(d.take(i - start) =~= d);
    Some(v)
}

/// A numeric text that `f32::from_str` accepts: ASCII digits with at most one `.`,
/// and at least one digit.
pub open spec fn count_dots(s: Seq<char>) -> nat
    decreases s.len(),
{
    if s.len() == 0 {
        0
    } else {
        count_dots(s.drop_last()) + if s.last() == '.' {
            1nat
        } else {
            0nat
        }
    }
}

pub open spec fn float_text_ok(s: Seq<char>) -> bool {
    &&& forall|i: int| 0 <= i < s.len() ==> (is_digit(#[trigger] s[i]) || s[i] == '.')
    &&& count_dots(s) <= 1
    &&& exists|i: int| 0 <= i < s.len() && is_digit(#[trigger] s[i])
}

/// Some digit of `s` is not `0`, so the number it writes is above zero.
pub open spec fn has_nonzero_digit(s: Seq<char>) -> bool {
    exists|i: int| 0 <= i < s.len() && is_digit(#[trigger] s[i]) && s[i] != '0'
}

pub fn float_text_ok_exec(s: &Vec<char>) -> (r: bool)
    ensures
        r == float_text_ok(s@),
{
    let mut dots: usize = 0;
    let mut digit = false;
    let mut i: usize = 0;
    while i < s.len()
        invariant
            i <= s.len(),
            dots as nat == count_dots(s@.take(i as int)),
            dots <= i,
            forall|j: int| 0 <= j < i ==> (is_digit(#[trigger] s@[j]) || s@[j] == '.'),
            digit == exists|j: int| 0 <= j < i && is_digit(#[trigger] s@[j]),
        decreases s.len() - i,
    {
        let c = s[i];
        assert(s@.take(i + 1).drop_last() =~= s@.take(i as int));
        if '0' <= c && c <= '9' {
            digit = true;
        } else if c == '.' {
            dots = dots + 1;
        } else {
            return false;
        }
        i = i + 1;
    }
    assert(s@.take(i as int) =~= s@);
    dots <= 1 && digit
}

pub fn has_nonzero_digit_exec(s: &Vec<char>) -> (r: bool)
    ensures
        r == has_nonzero_digit(s@),
{
    let mut i: usize = 0;
    while i < s.len()
        invariant
            i <= s.len(),
            forall|j: int| 0 <= j < i ==> !(is_digit(#[trigger] s@[j]) && s@[j] != '0'),
        decreases s.len() - i,
    {
        if '1' <= s[i] && s[i] <= '9' {
            return true;
        }
        i = i + 1;
    }
    false
}

/// The digits before the decimal point of a numeric text.
pub open spec fn int_part(num: Seq<char>) -> Seq<char> {
    match find_first(num, Cls::Dot) {
        Some(i) => num.take(i),
        None => num,
    }
}

/// The digits after the decimal point of a numeric text.
pub open spec fn frac_part(num: Seq<char>) -> Seq<char> {
    match find_first(num, Cls::Dot) {
        Some(i) => num.skip(i + 1),
        None => Seq::empty(),
    }
}

/// The digits after the point of 2^-150, the greatest value that
/// `f32::from_str` reads as zero (it lies halfway between zero and the
/// smallest subnormal, and the tie rounds to the even zero).
pub open spec fn f32_zero_bound_digits() -> Seq<char> {
    "000000000000000000000000000000000000000000000700649232162408535461864791644958065640130970938257885878534141944895541342930300743319094181060791015625"@
}

/// The `i`-th digit of a fraction; `0` past its end.
pub open spec fn digit_at(s: Seq<char>, i: int) -> char {
    if 0 <= i < s.len() {
        s[i]
    } else {
        '0'
    }
}

/// The fraction with digits `a` exceeds the one with digits `b`, both read
/// from digit `i` on.
pub open spec fn frac_above_from(a: Seq<char>, b: Seq<char>, i: int) -> bool
    decreases a.len() + b.len() - i,
{
    if i < 0 || (i >= a.len() && i >= b.len()) {
        false
    } else if digit_at(a, i) != digit_at(b, i) {
        (digit_at(a, i) as u32) > (digit_at(b, i) as u32)
    } else {
        frac_above_from(a, b, i + 1)
    }
}

/// A numeric text (`float_text_ok`) whose `f32` value is above zero: a
/// nonzero digit before the point, or a fraction above 2^-150.
pub open spec fn f32_positive(num: Seq<char>) -> bool {
    has_nonzero_digit(int_part(num)) || frac_above_from(frac_part(num), f32_zero_bound_digits(), 0)
}

fn frac_above_exec(a: &Vec<char>, b: &Vec<char>) -> (r: bool)
    ensures
        r == frac_above_from(a@, b@, 0),
{
    let n: usize = if a.len() > b.len() {
        a.len()
    } else {
        b.len()
    };
    let mut i: usize = 0;
    while i < n
        invariant
            i <= n,
            n == (if a.len() > b.len() {
                a.len()
            } else {
                b.len()
            }),
            frac_above_from(a@, b@, 0) == frac_above_from(a@, b@, i as int),
        decreases n - i,
    {
        let ca = if i < a.len() {
            a[i]
        } else {
            '0'
        };
        let cb = if i < b.len() {
            b[i]
        } else {
            '0'
        };
        assert(ca == digit_at(a@, i as int) && cb == digit_at(b@, i as int));
        if ca != cb {
            return (ca as u32) > (cb as u32);
        }
        i = i + 1;
    }
    false
}

/// Whether the `f32` value of a numeric text is above zero.
pub fn f32_positive_exec(num: &Vec<char>) -> (r: bool)
    ensures
        r == f32_positive(num@),
{
    proof {
        lemma_find_first(num@, Cls::Dot);
    }
    let (ip, fp) = match find_first_exec(num, Cls::Dot) {
        Some(i) => {
            assert(i < num.len());
            let ip = slice_of(num, 0, i);
            let fp = slice_of(num, i + 1, num.len());
            assert(ip@ =~= num@.take(i as int));
            assert(fp@ =~= num@.skip(i + 1));
            (ip, fp)
        },
        None => (copy_chars(num), Vec::new()),
    };
    assert(fp@ =~= frac_part(num@));
    let bound = chars_of("000000000000000000000000000000000000000000000700649232162408535461864791644958065640130970938257885878534141944895541342930300743319094181060791015625");
    has_nonzero_digit_exec(&ip) || frac_above_exec(&fp, &bound)
}

/// The view of an optional text.
pub open spec fn opt_view(o: Option<Vec<char>>) -> Option<Seq<char>> {
    match o {
        Some(v) => Some(v@),
        None => None,
    }
}

/// A line without the `\r` of a `\r\n` ending.
pub open spec fn strip_cr(l: Seq<char>) -> Seq<char> {
    if l.len() > 0 && l.last() == '\r' {
        l.drop_last()
    } else {
        l
    }
}

/// The lines of a text (`str::lines`): split at `\n`, a `\r` before it dropped.
/// Unlike `str::lines` a trailing empty line is kept; every caller ignores empty
/// and blank lines.
pub open spec fn lines_of(text: Seq<char>) -> Seq<Seq<char>> {
    split_all(text, Cls::Newline).map_values(|l: Seq<char>| strip_cr(l))
}

pub fn strip_cr_exec(l: &Vec<char>) -> (r: Vec<char>)
    ensures
        r@ == strip_cr(l@),
{
    if l.len() > 0 && l[l.len() - 1] == '\r' {
        slice_of(l, 0, l.len() - 1)
    } else {
        copy_chars(l)
    }
}

pub fn lines_exec(text: &Vec<char>) -> (r: Vec<Vec<char>>)
    ensures
        views(r@) == lines_of(text@),
{
    let parts = split_all_exec(text, Cls::Newline);
    let mut r: Vec<Vec<char>> = Vec::new();
    let mut i: usize = 0;
    while i < parts.len()
        invariant
            i <= parts.len(),
            r@.len() == i,
            parts@.len() == split_all(text@, Cls::Newline).len(),
            views(parts@) == split_all(text@, Cls::Newline),
            views(r@) == split_all(text@, Cls::Newline).take(i as int).map_values(
                |l: Seq<char>| strip_cr(l),
            ),
        decreases parts.len() - i,
    {
        let l = strip_cr_exec(&parts[i]);
        assert(views(parts@)[i as int] == parts@[i as int]@);
        let ghost old_v = views(r@);
        let ghost sp = split_all(text@, Cls::Newline);
        r.push(l);
        assert(views(r@) =~= old_v.push(strip_cr(sp[i as int])));
        assert(sp.take(i + 1).map_values(|l: Seq<char>| strip_cr(l)) =~= sp.take(
            i as int,
        ).map_values(|l: Seq<char>| strip_cr(l)).push(strip_cr(sp[i as int])));
        i = i + 1;
    }
    assert(split_all(text@, Cls::Newline).take(i as int) =~= split_all(text@, Cls::Newline));
    r
}

} // verus!

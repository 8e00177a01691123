//! Input helpers: coordinates, element references, key combinations, key
//! codes and renderer editing commands.

use vstd::prelude::*;
use crate::text::{
    ascii_lower_all, ascii_upper, chars_of, first_index, find_char, find_char_from, is_alpha,
    is_digit, is_text, lemma_first_index, lemma_first_index_none, lower_seq, parse_bounded,
    parse_i64, push_char, push_chars, push_str, rfind_char, slice_to_vec, string_of, trim,
    trim_seq, upper,
};

verus! {

// ---------------------------------------------------------------------------
// Coordinates and selectors
// ---------------------------------------------------------------------------

/// An `i64` as Rust's `str::parse::<i64>` reads it.
pub open spec fn parse_i64_spec(s: Seq<char>) -> Option<i64> {
    match parse_bounded(s, true, i64::MIN as int, i64::MAX as int) {
        Some(v) => Some(v as i64),
        None => None,
    }
}

/// `"x,y"`: two integers around the first comma, each trimmed of white space.
pub open spec fn xy_spec(s: Seq<char>) -> Option<(i64, i64)> {
    match first_index(s, ',') {
        None => None,
        Some(i) => match (
            parse_i64_spec(trim_seq(s.take(i))),
            parse_i64_spec(trim_seq(s.skip(i + 1))),
        ) {
            (Some(a), Some(b)) => Some((a, b)),
            _ => None,
        },
    }
}

/// Parses `"x,y"` coordinates.
pub fn xy(s: &str) -> (r: Option<(i64, i64)>)
    ensures
        r == xy_spec(s@),
{
    let cs = chars_of(s);
    match find_char(cs.as_slice(), ',') {
        None => {
            proof {
                lemma_first_index_none(cs@, ',');
            }
            None
        },
        Some(i) => {
            assert(cs@.len() == cs.len());
            proof {
                lemma_first_index(cs@, ',', i as int);
            }
            let a = slice_to_vec(cs.as_slice(), 0, i);
            let b = slice_to_vec(cs.as_slice(), i + 1, cs.len());
            assert(a@ =~= cs@.take(i as int));
            assert(b@ =~= cs@.skip(i + 1));
            let ta = trim(a.as_slice());
            let tb = trim(b.as_slice());
            match parse_i64(ta.as_slice()) {
                None => None,
                Some(x) => match parse_i64(tb.as_slice()) {
                    None => None,
                    Some(y) => Some((x, y)),
                },
            }
        },
    }
}

/// The selector that an `@ref` snapshot handle stands for.
pub open spec fn ref_selector_spec(t: Seq<char>) -> Seq<char> {
    if t.len() > 0 && t[0] == '@' {
        "[data-browser-control-ref=\""@ + t.drop_first() + "\"]"@
    } else {
        t
    }
}

/// `@e3` snapshot refs become attribute selectors; everything else is CSS.
pub fn ref_selector(target: &str) -> (r: String)
    ensures
        r@ == ref_selector_spec(target@),
{
    let cs = chars_of(target);
    if cs.len() > 0 && cs[0] == '@' {
        let mut s = String::new();
        push_str(&mut s, "[data-browser-control-ref=\"");
        let rest = slice_to_vec(cs.as_slice(), 1, cs.len());
        push_chars(&mut s, rest.as_slice());
        push_str(&mut s, "\"]");
        assert(rest@ =~= target@.drop_first());
        s
    } else {
        string_of(cs.as_slice())
    }
}

// ---------------------------------------------------------------------------
// Key combinations
// ---------------------------------------------------------------------------

/// Modifier bits as CDP numbers them.
pub const MOD_ALT: u64 = 1;
pub const MOD_CTRL: u64 = 2;
pub const MOD_META: u64 = 4;
pub const MOD_SHIFT: u64 = 8;

/// A key combination named a modifier that is not known.
#[derive(Debug, PartialEq, Eq)]
pub enum KeyComboError {
    /// The (lower-cased) unknown modifier name.
    UnknownModifier(String),
}

/// The bit of a (lower-cased) modifier name.
#[verifier::opaque]
pub open spec fn modifier_bit(m: Seq<char>) -> Option<u64> {
    if m == "alt"@ || m == "option"@ || m == "opt"@ {
        Some(MOD_ALT)
    } else if m == "ctrl"@ || m == "control"@ {
        Some(MOD_CTRL)
    } else if m == "meta"@ || m == "cmd"@ || m == "command"@ || m == "super"@ || m == "win"@ {
        Some(MOD_META)
    } else if m == "shift"@ {
        Some(MOD_SHIFT)
    } else {
        None
    }
}

/// The pieces of `s` between `+` separators.
#[verifier::opaque]
pub open spec fn split_plus(s: Seq<char>) -> Seq<Seq<char>>
    decreases s.len(),
{
    match first_index(s, '+') {
        None => seq![s],
        Some(i) => if 0 <= i < s.len() {
            seq![s.take(i)] + split_plus(s.skip(i + 1))
        } else {
            seq![s]
        },
    }
}

/// Folds the non-empty modifier pieces into a bit set; the first unknown
/// one (lower-cased) is the error.
pub open spec fn fold_modifiers(pieces: Seq<Seq<char>>, acc: u64) -> Result<u64, Seq<char>>
    decreases pieces.len(),
{
    if pieces.len() == 0 {
        Ok(acc)
    } else if pieces[0].len() == 0 {
        fold_modifiers(pieces.drop_first(), acc)
    } else {
        match modifier_bit(lower_seq(pieces[0])) {
            Some(b) => fold_modifiers(pieces.drop_first(), acc | b),
            None => Err(lower_seq(pieces[0])),
        }
    }
}

/// `s` without its trailing `+` characters.
pub open spec fn trim_end_plus(s: Seq<char>) -> Seq<char>
    decreases s.len(),
{
    if s.len() > 0 && s.last() == '+' { trim_end_plus(s.drop_last()) } else { s }
}

/// Index of the last `+` of `s`.
pub open spec fn last_plus(s: Seq<char>) -> int {
    choose|j: int| 0 <= j < s.len() && s[j] == '+' && forall|k: int| j < k < s.len() ==> s[k] != '+'
}

/// The modifier text and the key of a combination with a `+` in it: split at
/// the last `+`; a trailing `+` is the key itself.
pub open spec fn combo_parts(s: Seq<char>) -> (Seq<char>, Seq<char>) {
    let j = last_plus(s);
    let mods0 = s.take(j);
    let key0 = s.skip(j + 1);
    if key0.len() == 0 {
        (trim_end_plus(mods0), "+"@)
    } else {
        (mods0, key0)
    }
}

/// What `parse_key_combo` gives for `s`: the modifier bits and the key, or
/// the unknown modifier.
pub open spec fn key_combo_spec(s: Seq<char>) -> Result<(u64, Seq<char>), Seq<char>> {
    if first_index(s, '+') is None || s.len() == 1 {
        Ok((0, s))
    } else {
        match fold_modifiers(split_plus(combo_parts(s).0), 0) {
            Ok(b) => Ok((b, combo_parts(s).1)),
            Err(e) => Err(e),
        }
    }
}

proof fn lemma_last_plus(s: Seq<char>, j: int)
    requires
        0 <= j < s.len(),
        s[j] == '+',
        forall|x: int| j < x < s.len() ==> s[x] != '+',
    ensures
        last_plus(s) == j,
{
    let k = last_plus(s);
    assert(0 <= k < s.len() && s[k] == '+' && forall|x: int| k < x < s.len() ==> s[x] != '+');
    if k < j {
        assert(s[j] != '+');
    }
    if k > j {
        assert(s[k] != '+');
    }
}

/// The modifier text and key of `cs`, which holds a `+` at index `j` and
/// none after it.
fn split_combo(cs: &[char], j: usize) -> (r: (Vec<char>, String))
    requires
        j < cs@.len(),
        cs@[j as int] == '+',
        forall|x: int| j < x < cs@.len() ==> cs@[x] != '+',
    ensures
        r.0@ == combo_parts(cs@).0,
        r.1@ == combo_parts(cs@).1,
{
    proof {
        lemma_last_plus(cs@, j as int);
    }
    assert(cs@.len() == cs.len());
    let mut mods = slice_to_vec(cs, 0, j);
    let key0 = slice_to_vec(cs, j + 1, cs.len());
    assert(mods@ =~= cs@.take(j as int));
    assert(key0@ =~= cs@.skip(j + 1));
    if key0.len() == 0 {
        while mods.len() > 0 && mods[mods.len() - 1] == '+'
            invariant
                trim_end_plus(mods@) == trim_end_plus(cs@.take(j as int)),
            decreases mods@.len(),
        {
            let ghost before = mods@;
            mods.pop();
            assert(mods@ =~= before.drop_last());
        }
        assert(trim_end_plus(mods@) == mods@);
        (mods, String::from_str("+"))
    } else {
        (mods, string_of(key0.as_slice()))
    }
}

fn modifier_bit_exec(m: &[char]) -> (r: Option<u64>)
    ensures
        r == modifier_bit(m@),
{
    reveal(modifier_bit);
    if is_text(m, "alt") || is_text(m, "option") || is_text(m, "opt") {
        Some(MOD_ALT)
    } else if is_text(m, "ctrl") || is_text(m, "control") {
        Some(MOD_CTRL)
    } else if is_text(m, "meta") || is_text(m, "cmd") || is_text(m, "command") || is_text(
        m,
        "super",
    ) || is_text(m, "win") {
        Some(MOD_META)
    } else if is_text(m, "shift") {
        Some(MOD_SHIFT)
    } else {
        None
    }
}

proof fn lemma_split_step(s: Seq<char>, i: int)
    requires
        0 <= i < s.len(),
        s[i] == '+',
        forall|j: int| 0 <= j < i ==> s[j] != '+',
    ensures
        split_plus(s) == seq![s.take(i)] + split_plus(s.skip(i + 1)),
{
    reveal(split_plus);
    lemma_first_index(s, '+', i);
}

proof fn lemma_split_last(s: Seq<char>)
    requires
        forall|j: int| 0 <= j < s.len() ==> s[j] != '+',
    ensures
        split_plus(s) == seq![s],
{
    reveal(split_plus);
    lemma_first_index_none(s, '+');
}

/// The fold over the pieces starting with `piece`.
pub open spec fn fold_step(piece: Seq<char>, tail: Seq<Seq<char>>, acc: u64) -> Result<u64, Seq<char>> {
    if piece.len() == 0 {
        fold_modifiers(tail, acc)
    } else {
        match modifier_bit(lower_seq(piece)) {
            Some(b) => fold_modifiers(tail, acc | b),
            None => Err(lower_seq(piece)),
        }
    }
}

proof fn lemma_fold_cons(piece: Seq<char>, tail: Seq<Seq<char>>, acc: u64)
    ensures
        fold_modifiers(seq![piece] + tail, acc) == fold_step(piece, tail, acc),
{
    let ps = seq![piece] + tail;
    assert(ps[0] == piece);
    assert(ps.drop_first() =~= tail);
}

/// One step of the modifier fold: the piece `m[start..end]` ends at a `+`.
proof fn lemma_fold_piece(m: Seq<char>, start: int, end: int, acc: u64)
    requires
        0 <= start <= end < m.len(),
        m[end] == '+',
        forall|j: int| start <= j < end ==> m[j] != '+',
    ensures
        fold_modifiers(split_plus(m.skip(start)), acc) == fold_step(
            m.subrange(start, end),
            split_plus(m.skip(end + 1)),
            acc,
        ),
{
    let rest = m.skip(start);
    let e = end - start;
    assert(rest.take(e) =~= m.subrange(start, end));
    assert(rest[e] == '+');
    assert forall|j: int| 0 <= j < e implies rest[j] != '+' by {
        assert(rest[j] == m[start + j]);
    }
    lemma_split_step(rest, e);
    assert(rest.skip(e + 1) =~= m.skip(end + 1));
    lemma_fold_cons(m.subrange(start, end), split_plus(m.skip(end + 1)), acc);
}

/// The last step of the modifier fold: `m[start..]` holds no `+`.
proof fn lemma_fold_last(m: Seq<char>, start: int, acc: u64)
    requires
        0 <= start <= m.len(),
        forall|j: int| start <= j < m.len() ==> m[j] != '+',
    ensures
        fold_modifiers(split_plus(m.skip(start)), acc) == fold_step(
            m.subrange(start, m.len() as int),
            Seq::empty(),
            acc,
        ),
{
    let rest = m.skip(start);
    assert forall|j: int| 0 <= j < rest.len() implies rest[j] != '+' by {
        assert(rest[j] == m[start + j]);
    }
    lemma_split_last(rest);
    assert(rest =~= m.subrange(start, m.len() as int));
    assert(seq![rest] =~= seq![rest] + Seq::<Seq<char>>::empty());
    lemma_fold_cons(rest, Seq::empty(), acc);
}

/// Folds the modifiers written in `m`.
fn fold_modifiers_exec(m: &[char]) -> (r: Result<u64, KeyComboError>)
    ensures
        match r {
            Ok(b) => fold_modifiers(split_plus(m@), 0) == Ok::<u64, Seq<char>>(b),
            Err(KeyComboError::UnknownModifier(e)) => fold_modifiers(split_plus(m@), 0) == Err::<
                u64,
                Seq<char>,
            >(e@),
        },
{
    let mut acc: u64 = 0;
    let mut start: usize = 0;
    assert(m@.skip(0) =~= m@);
    loop
        invariant
            start <= m@.len(),
            fold_modifiers(split_plus(m@), 0) == fold_modifiers(split_plus(m@.skip(start as int)), acc),
        decreases m@.len() - start,
    {
        let end = match find_char_from(m, '+', start) {
            Some(i) => i,
            None => m.len(),
        };
        let piece = slice_to_vec(m, start, end);
        proof {
            if end < m@.len() {
                lemma_fold_piece(m@, start as int, end as int, acc);
            } else {
                lemma_fold_last(m@, start as int, acc);
            }
        }
        let mut next = acc;
        if piece.len() > 0 {
            let low = ascii_lower_all(piece.as_slice());
            match modifier_bit_exec(low.as_slice()) {
                Some(b) => {
                    next = acc | b;
                },
                None => {
                    return Err(KeyComboError::UnknownModifier(string_of(low.as_slice())));
                },
            }
        }
        if end == m.len() {
            return Ok(next);
        }
        acc = next;
        start = end + 1;
    }
}

/// `Enter`, `a`, `ctrl+a`, `cmd+shift+t`. Modifier names: alt/ctrl/meta(cmd)/shift.
pub fn parse_key_combo(spec: &str) -> (r: Result<(u64, String), KeyComboError>)
    ensures
        match r {
            Ok((b, k)) => key_combo_spec(spec@) == Ok::<(u64, Seq<char>), Seq<char>>((b, k@)),
            Err(KeyComboError::UnknownModifier(e)) => key_combo_spec(spec@) == Err::<
                (u64, Seq<char>),
                Seq<char>,
            >(e@),
        },
{
    let cs = chars_of(spec);
    let first = find_char(cs.as_slice(), '+');
    proof {
        match first {
            Some(i) => lemma_first_index(cs@, '+', i as int),
            None => lemma_first_index_none(cs@, '+'),
        }
    }
    if first.is_none() || cs.len() == 1 {
        return Ok((0, string_of(cs.as_slice())));
    }
    let j = match rfind_char(cs.as_slice(), '+') {
        Some(j) => j,
        None => {
            assert(false);
            0
        },
    };
    let (mods, key) = split_combo(cs.as_slice(), j);
    match fold_modifiers_exec(mods.as_slice()) {
        Ok(b) => Ok((b, key)),
        Err(e) => Err(e),
    }
}

// ---------------------------------------------------------------------------
// Key codes
// ---------------------------------------------------------------------------

/// `(windowsVirtualKeyCode, code, text)` of a named key.
pub open spec fn named_key(k: Seq<char>) -> Option<(u64, Seq<char>, Option<Seq<char>>)> {
    if k == "Enter"@ {
        Some((13, "Enter"@, Some("\r"@)))
    } else if k == "Tab"@ {
        Some((9, "Tab"@, Some("\t"@)))
    } else if k == "Escape"@ || k == "Esc"@ {
        Some((27, "Escape"@, None))
    } else if k == "Backspace"@ {
        Some((8, "Backspace"@, None))
    } else if k == "Delete"@ {
        Some((46, "Delete"@, None))
    } else if k == "Home"@ {
        Some((36, "Home"@, None))
    } else if k == "End"@ {
        Some((35, "End"@, None))
    } else if k == "PageUp"@ {
        Some((33, "PageUp"@, None))
    } else if k == "PageDown"@ {
        Some((34, "PageDown"@, None))
    } else if k == "ArrowLeft"@ {
        Some((37, "ArrowLeft"@, None))
    } else if k == "ArrowUp"@ {
        Some((38, "ArrowUp"@, None))
    } else if k == "ArrowRight"@ {
        Some((39, "ArrowRight"@, None))
    } else if k == "ArrowDown"@ {
        Some((40, "ArrowDown"@, None))
    } else if k == " "@ || k == "Space"@ {
        Some((32, "Space"@, Some(" "@)))
    } else {
        None
    }
}

/// key -> (windowsVirtualKeyCode, code, text).
pub open spec fn key_info_spec(k: Seq<char>) -> Option<(u64, Seq<char>, Option<Seq<char>>)> {
    if named_key(k) is Some {
        named_key(k)
    } else if k.len() == 1 {
        let ch = k[0];
        let vk: u64 = if is_alpha(ch) { upper(ch) as u64 } else { ch as u64 };
        let code = if is_alpha(ch) {
            "Key"@.push(upper(ch))
        } else if is_digit(ch) {
            "Digit"@.push(ch)
        } else {
            k
        };
        Some((vk, code, Some(k)))
    } else {
        None
    }
}

/// The Windows virtual-key code of the key whose DOM `code` is `code`:
/// `VK_BACK`, `VK_TAB`, `VK_RETURN`, `VK_ESCAPE`, `VK_SPACE`, `VK_PRIOR`,
/// `VK_NEXT`, `VK_END`, `VK_HOME`, `VK_LEFT`, `VK_UP`, `VK_RIGHT`, `VK_DOWN`
/// and `VK_DELETE`.
pub open spec fn windows_vk(code: Seq<char>) -> Option<u64> {
    if code == "Backspace"@ {
        Some(8)
    } else if code == "Tab"@ {
        Some(9)
    } else if code == "Enter"@ {
        Some(13)
    } else if code == "Escape"@ {
        Some(27)
    } else if code == "Space"@ {
        Some(32)
    } else if code == "PageUp"@ {
        Some(33)
    } else if code == "PageDown"@ {
        Some(34)
    } else if code == "End"@ {
        Some(35)
    } else if code == "Home"@ {
        Some(36)
    } else if code == "ArrowLeft"@ {
        Some(37)
    } else if code == "ArrowUp"@ {
        Some(38)
    } else if code == "ArrowRight"@ {
        Some(39)
    } else if code == "ArrowDown"@ {
        Some(40)
    } else if code == "Delete"@ {
        Some(46)
    } else {
        None
    }
}

/// The table of `windows_vk` read off at each name.
proof fn lemma_windows_vk_values()
    ensures
        windows_vk("Backspace"@) == Some(8u64),
        windows_vk("Tab"@) == Some(9u64),
        windows_vk("Enter"@) == Some(13u64),
        windows_vk("Escape"@) == Some(27u64),
        windows_vk("Space"@) == Some(32u64),
        windows_vk("PageUp"@) == Some(33u64),
        windows_vk("PageDown"@) == Some(34u64),
        windows_vk("End"@) == Some(35u64),
        windows_vk("Home"@) == Some(36u64),
        windows_vk("ArrowLeft"@) == Some(37u64),
        windows_vk("ArrowUp"@) == Some(38u64),
        windows_vk("ArrowRight"@) == Some(39u64),
        windows_vk("ArrowDown"@) == Some(40u64),
        windows_vk("Delete"@) == Some(46u64),
{
    reveal_strlit("Backspace");
    reveal_strlit("Tab");
    reveal_strlit("Enter");
    reveal_strlit("Escape");
    reveal_strlit("Space");
    reveal_strlit("PageUp");
    reveal_strlit("PageDown");
    reveal_strlit("End");
    reveal_strlit("Home");
    reveal_strlit("ArrowLeft");
    reveal_strlit("ArrowUp");
    reveal_strlit("ArrowRight");
    reveal_strlit("ArrowDown");
    reveal_strlit("Delete");
    assert("Tab"@.len() != "Backspace"@.len());
    assert("Enter"@.len() != "Backspace"@.len());
    assert("Enter"@.len() != "Tab"@.len());
    assert("Escape"@.len() != "Backspace"@.len());
    assert("Escape"@.len() != "Tab"@.len());
    assert("Escape"@.len() != "Enter"@.len());
    assert("Space"@.len() != "Backspace"@.len());
    assert("Space"@.len() != "Tab"@.len());
    assert("Space"@[0] != "Enter"@[0]);
    assert("Space"@.len() != "Escape"@.len());
    assert("PageUp"@.len() != "Backspace"@.len());
    assert("PageUp"@.len() != "Tab"@.len());
    assert("PageUp"@.len() != "Enter"@.len());
    assert("PageUp"@[0] != "Escape"@[0]);
    assert("PageUp"@.len() != "Space"@.len());
    assert("PageDown"@.len() != "Backspace"@.len());
    assert("PageDown"@.len() != "Tab"@.len());
    assert("PageDown"@.len() != "Enter"@.len());
    assert("PageDown"@.len() != "Escape"@.len());
    assert("PageDown"@.len() != "Space"@.len());
    assert("PageDown"@.len() != "PageUp"@.len());
    assert("End"@.len() != "Backspace"@.len());
    assert("End"@[0] != "Tab"@[0]);
    assert("End"@.len() != "Enter"@.len());
    assert("End"@.len() != "Escape"@.len());
    assert("End"@.len() != "Space"@.len());
    assert("End"@.len() != "PageUp"@.len());
    assert("End"@.len() != "PageDown"@.len());
    assert("Home"@.len() != "Backspace"@.len());
    assert("Home"@.len() != "Tab"@.len());
    assert("Home"@.len() != "Enter"@.len());
    assert("Home"@.len() != "Escape"@.len());
    assert("Home"@.len() != "Space"@.len());
    assert("Home"@.len() != "PageUp"@.len());
    assert("Home"@.len() != "PageDown"@.len());
    assert("Home"@.len() != "End"@.len());
    assert("ArrowLeft"@[0] != "Backspace"@[0]);
    assert("ArrowLeft"@.len() != "Tab"@.len());
    assert("ArrowLeft"@.len() != "Enter"@.len());
    assert("ArrowLeft"@.len() != "Escape"@.len());
    assert("ArrowLeft"@.len() != "Space"@.len());
    assert("ArrowLeft"@.len() != "PageUp"@.len());
    assert("ArrowLeft"@.len() != "PageDown"@.len());
    assert("ArrowLeft"@.len() != "End"@.len());
    assert("ArrowLeft"@.len() != "Home"@.len());
    assert("ArrowUp"@.len() != "Backspace"@.len());
    assert("ArrowUp"@.len() != "Tab"@.len());
    assert("ArrowUp"@.len() != "Enter"@.len());
    assert("ArrowUp"@.len() != "Escape"@.len());
    assert("ArrowUp"@.len() != "Space"@.len());
    assert("ArrowUp"@.len() != "PageUp"@.len());
    assert("ArrowUp"@.len() != "PageDown"@.len());
    assert("ArrowUp"@.len() != "End"@.len());
    assert("ArrowUp"@.len() != "Home"@.len());
    assert("ArrowUp"@.len() != "ArrowLeft"@.len());
    assert("ArrowRight"@.len() != "Backspace"@.len());
    assert("ArrowRight"@.len() != "Tab"@.len());
    assert("ArrowRight"@.len() != "Enter"@.len());
    assert("ArrowRight"@.len() != "Escape"@.len());
    assert("ArrowRight"@.len() != "Space"@.len());
    assert("ArrowRight"@.len() != "PageUp"@.len());
    assert("ArrowRight"@.len() != "PageDown"@.len());
    assert("ArrowRight"@.len() != "End"@.len());
    assert("ArrowRight"@.len() != "Home"@.len());
    assert("ArrowRight"@.len() != "ArrowLeft"@.len());
    assert("ArrowRight"@.len() != "ArrowUp"@.len());
    assert("ArrowDown"@[0] != "Backspace"@[0]);
    assert("ArrowDown"@.len() != "Tab"@.len());
    assert("ArrowDown"@.len() != "Enter"@.len());
    assert("ArrowDown"@.len() != "Escape"@.len());
    assert("ArrowDown"@.len() != "Space"@.len());
    assert("ArrowDown"@.len() != "PageUp"@.len());
    assert("ArrowDown"@.len() != "PageDown"@.len());
    assert("ArrowDown"@.len() != "End"@.len());
    assert("ArrowDown"@.len() != "Home"@.len());
    assert("ArrowDown"@[5] != "ArrowLeft"@[5]);
    assert("ArrowDown"@.len() != "ArrowUp"@.len());
    assert("ArrowDown"@.len() != "ArrowRight"@.len());
    assert("Delete"@.len() != "Backspace"@.len());
    assert("Delete"@.len() != "Tab"@.len());
    assert("Delete"@.len() != "Enter"@.len());
    assert("Delete"@[0] != "Escape"@[0]);
    assert("Delete"@.len() != "Space"@.len());
    assert("Delete"@[0] != "PageUp"@[0]);
    assert("Delete"@.len() != "PageDown"@.len());
    assert("Delete"@.len() != "End"@.len());
    assert("Delete"@.len() != "Home"@.len());
    assert("Delete"@.len() != "ArrowLeft"@.len());
    assert("Delete"@.len() != "ArrowUp"@.len());
    assert("Delete"@.len() != "ArrowRight"@.len());
    assert("Delete"@.len() != "ArrowDown"@.len());
}

/// A named key (longer than one character) is sent as itself: its DOM code
/// is its own name (`Esc` is the short name of `Escape`), and its key code is
/// the Windows virtual-key code of that key.
pub proof fn law_named_keys(k: Seq<char>)
    requires
        k.len() >= 2,
        key_info_spec(k) is Some,
    ensures
        key_info_spec(k) matches Some((vk, code, _)) && (code == k || (k == "Esc"@ && code == "Escape"@))
            && windows_vk(code) == Some(vk),
{
    reveal_strlit(" ");
    reveal_strlit("Esc");
    reveal_strlit("Backspace");
    reveal_strlit("Tab");
    reveal_strlit("Enter");
    reveal_strlit("Escape");
    reveal_strlit("Space");
    reveal_strlit("PageUp");
    reveal_strlit("PageDown");
    reveal_strlit("End");
    reveal_strlit("Home");
    reveal_strlit("ArrowLeft");
    reveal_strlit("ArrowUp");
    reveal_strlit("ArrowRight");
    reveal_strlit("ArrowDown");
    reveal_strlit("Delete");
    lemma_windows_vk_values();
    if k == "Escape"@ || k == "Esc"@ {
        assert(windows_vk("Escape"@) == Some(27u64));
    } else if k == " "@ || k == "Space"@ {
        assert(k == "Space"@);
        assert(windows_vk("Space"@) == Some(32u64));
    } else if k == "Enter"@ {
        assert(windows_vk("Enter"@) == Some(13u64));
    } else if k == "Tab"@ {
        assert(windows_vk("Tab"@) == Some(9u64));
    } else if k == "Backspace"@ {
        assert(windows_vk("Backspace"@) == Some(8u64));
    } else if k == "Delete"@ {
        assert(windows_vk("Delete"@) == Some(46u64));
    } else if k == "Home"@ {
        assert(windows_vk("Home"@) == Some(36u64));
    } else if k == "End"@ {
        assert(windows_vk("End"@) == Some(35u64));
    } else if k == "PageUp"@ {
        assert(windows_vk("PageUp"@) == Some(33u64));
    } else if k == "PageDown"@ {
        assert(windows_vk("PageDown"@) == Some(34u64));
    } else if k == "ArrowLeft"@ {
        assert(windows_vk("ArrowLeft"@) == Some(37u64));
    } else if k == "ArrowUp"@ {
        assert(windows_vk("ArrowUp"@) == Some(38u64));
    } else if k == "ArrowRight"@ {
        assert(windows_vk("ArrowRight"@) == Some(39u64));
    } else if k == "ArrowDown"@ {
        assert(windows_vk("ArrowDown"@) == Some(40u64));
    }

}

/// The view of an optional string.
pub open spec fn opt_view(o: Option<String>) -> Option<Seq<char>> {
    match o {
        Some(s) => Some(s@),
        None => None,
    }
}

fn named(vk: u64, code: &str, text: &str, has_text: bool) -> (r: Option<(u64, String, Option<String>)>)
    ensures
        r matches Some((v, c, t)) && v == vk && c@ == code@ && opt_view(t) == (if has_text {
            Some(text@)
        } else {
            None
        }),
{
    Some((vk, String::from_str(code), if has_text { Some(String::from_str(text)) } else { None }))
}

/// key -> (windowsVirtualKeyCode, code, text). Special keys carry their codes
/// so listeners checking `keyCode` / `code` / `key` all fire.
pub fn key_info(key: &str) -> (r: Option<(u64, String, Option<String>)>)
    ensures
        match r {
            Some((vk, code, text)) => key_info_spec(key@) == Some((vk, code@, opt_view(text))),
            None => key_info_spec(key@) is None,
        },
{
    let k = chars_of(key);
    let ks = k.as_slice();
    if is_text(ks, "Enter") {
        named(13, "Enter", "\r", true)
    } else if is_text(ks, "Tab") {
        named(9, "Tab", "\t", true)
    } else if is_text(ks, "Escape") || is_text(ks, "Esc") {
        named(27, "Escape", "", false)
    } else if is_text(ks, "Backspace") {
        named(8, "Backspace", "", false)
    } else if is_text(ks, "Delete") {
        named(46, "Delete", "", false)
    } else if is_text(ks, "Home") {
        named(36, "Home", "", false)
    } else if is_text(ks, "End") {
        named(35, "End", "", false)
    } else if is_text(ks, "PageUp") {
        named(33, "PageUp", "", false)
    } else if is_text(ks, "PageDown") {
        named(34, "PageDown", "", false)
    } else if is_text(ks, "ArrowLeft") {
        named(37, "ArrowLeft", "", false)
    } else if is_text(ks, "ArrowUp") {
        named(38, "ArrowUp", "", false)
    } else if is_text(ks, "ArrowRight") {
        named(39, "ArrowRight", "", false)
    } else if is_text(ks, "ArrowDown") {
        named(40, "ArrowDown", "", false)
    } else if is_text(ks, " ") || is_text(ks, "Space") {
        named(32, "Space", " ", true)
    } else if k.len() == 1 {
        let ch = k[0];
        let alpha = ('a' <= ch && ch <= 'z') || ('A' <= ch && ch <= 'Z');
        let up = ascii_upper(ch);
        let vk: u64 = if alpha { up as u64 } else { ch as u64 };
        let mut code = String::new();
        if alpha {
            push_str(&mut code, "Key");
            push_char(&mut code, up);
        } else if '0' <= ch && ch <= '9' {
            push_str(&mut code, "Digit");
            push_char(&mut code, ch);
        } else {
            push_chars(&mut code, ks);
            assert(code@ =~= key@);
        }
        Some((vk, code, Some(string_of(ks))))
    } else {
        None
    }
}

// ---------------------------------------------------------------------------
// Editing commands
// ---------------------------------------------------------------------------

/// Renderer editing command for a shortcut combination.
pub open spec fn editing_command_spec(modifiers: u64, key: Seq<char>) -> Option<Seq<char>> {
    if modifiers & (MOD_CTRL | MOD_META) == 0 {
        None
    } else {
        let k = lower_seq(key);
        let shift = modifiers & MOD_SHIFT != 0;
        if k == "a"@ && !shift {
            Some("selectAll"@)
        } else if k == "c"@ && !shift {
            Some("copy"@)
        } else if k == "x"@ && !shift {
            Some("cut"@)
        } else if k == "v"@ && !shift {
            Some("paste"@)
        } else if k == "z"@ && !shift {
            Some("undo"@)
        } else if (k == "z"@ && shift) || (k == "y"@ && !shift) {
            Some("redo"@)
        } else {
            None
        }
    }
}

/// Editing command for a shortcut combo. Renderer-level: works headless and
/// on macOS, where e.g. Cmd+A is otherwise swallowed by the application menu.
pub fn editing_command(modifiers: u64, key: &str) -> (r: Option<&'static str>)
    ensures
        match r {
            Some(c) => editing_command_spec(modifiers, key@) == Some(c@),
            None => editing_command_spec(modifiers, key@) is None,
        },
{
    if modifiers & (MOD_CTRL | MOD_META) == 0 {
        return None;
    }
    let kc = chars_of(key);
    let low = ascii_lower_all(kc.as_slice());
    let k = low.as_slice();
    let shift = modifiers & MOD_SHIFT != 0;
    if is_text(k, "a") && !shift {
        Some("selectAll")
    } else if is_text(k, "c") && !shift {
        Some("copy")
    } else if is_text(k, "x") && !shift {
        Some("cut")
    } else if is_text(k, "v") && !shift {
        Some("paste")
    } else if is_text(k, "z") && !shift {
        Some("undo")
    } else if (is_text(k, "z") && shift) || (is_text(k, "y") && !shift) {
        Some("redo")
    } else {
        None
    }
}

// ---------------------------------------------------------------------------
// Mouse buttons and key events
// ---------------------------------------------------------------------------

/// The mouse buttons a click may use.
pub open spec fn is_mouse_button_spec(b: Seq<char>) -> bool {
    b == "left"@ || b == "right"@ || b == "middle"@ || b == "back"@ || b == "forward"@
}

/// Whether `button` names a mouse button a click may use.
pub fn is_mouse_button(button: &str) -> (r: bool)
    ensures
        r == is_mouse_button_spec(button@),
{
    let cs = chars_of(button);
    let b = cs.as_slice();
    is_text(b, "left") || is_text(b, "right") || is_text(b, "middle") || is_text(b, "back")
        || is_text(b, "forward")
}

/// How the key-down half of a key press is sent.
pub struct KeyDown {
    /// `rawKeyDown` (a shortcut) rather than `keyDown`.
    pub raw: bool,
    /// The editing command a shortcut triggers.
    pub command: Option<&'static str>,
    /// The text a plain key types.
    pub text: Option<String>,
}

/// With Ctrl, Cmd or Alt held a key press is a shortcut, not typing.
pub open spec fn is_shortcut(modifiers: u64) -> bool {
    modifiers & (MOD_ALT | MOD_CTRL | MOD_META) != 0
}

/// The key-down event of pressing `key` (which types `text`) with
/// `modifiers`: a shortcut is a raw key-down without text that carries its
/// editing command, if any; a plain key carries its text, so that no
/// separate character event is needed.
pub fn key_down(modifiers: u64, key: &str, text: Option<String>) -> (r: KeyDown)
    ensures
        r.raw == is_shortcut(modifiers),
        r.raw ==> r.text is None && match r.command {
            Some(c) => editing_command_spec(modifiers, key@) == Some(c@),
            None => editing_command_spec(modifiers, key@) is None,
        },
        !r.raw ==> r.command is None && r.text == text,
{
    if modifiers & (MOD_ALT | MOD_CTRL | MOD_META) != 0 {
        KeyDown { raw: true, command: editing_command(modifiers, key), text: None }
    } else {
        KeyDown { raw: false, command: None, text }
    }
}

} // verus!

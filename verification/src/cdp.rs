//! Target and endpoint decisions of the DevTools client: which tab to
//! attach to, how tab and target arguments resolve, how a JavaScript
//! exception is reported, and how endpoint hints are read.

use vstd::prelude::*;
use crate::text::{
    find_char_from, first_index, lemma_first_index, lemma_first_index_none, rfind_char,
    slice_to_vec,
    all_digits, chars_of, contains, contains_seq, dec_nat, has_prefix, is_text, parse_bounded,
    parse_u16, parse_u64, parse_usize, push_chars, push_str, push_u128, starts_with, string_of,
};

verus! {

/// Chrome-internal schemes that are never useful page targets for an agent.
pub const INTERNAL: [&'static str; 4] = [
    "chrome://",
    "chrome-untrusted://",
    "devtools://",
    "chrome-extension://",
];

/// `url` has one of the internal schemes.
pub open spec fn is_internal_spec(url: Seq<char>) -> bool {
    has_prefix(url, "chrome://"@) || has_prefix(url, "chrome-untrusted://"@) || has_prefix(
        url,
        "devtools://"@,
    ) || has_prefix(url, "chrome-extension://"@)
}

fn has_text_prefix(s: &[char], p: &str) -> (r: bool)
    ensures
        r == has_prefix(s@, p@),
{
    let pc = chars_of(p);
    starts_with(s, pc.as_slice())
}

fn is_internal_chars(u: &[char]) -> (r: bool)
    ensures
        r == is_internal_spec(u@),
{
    has_text_prefix(u, "chrome://") || has_text_prefix(u, "chrome-untrusted://")
        || has_text_prefix(u, "devtools://") || has_text_prefix(u, "chrome-extension://")
}

/// Whether `url` belongs to the browser itself.
pub fn is_internal_url(url: &str) -> (r: bool)
    ensures
        r == is_internal_spec(url@),
{
    let u = chars_of(url);
    is_internal_chars(u.as_slice())
}

// ---------------------------------------------------------------------------
// Targets
// ---------------------------------------------------------------------------

/// One entry of `Target.getTargets`: `targetId` and `type` when they are
/// strings, `url` and `title` with a missing value read as empty.
pub struct TargetInfo {
    pub target_id: Option<String>,
    pub kind: Option<String>,
    pub url: String,
    pub title: String,
}

/// The mathematical content of a target entry.
pub struct TargetView {
    pub target_id: Option<Seq<char>>,
    pub kind: Option<Seq<char>>,
    pub url: Seq<char>,
    pub title: Seq<char>,
}

/// The view of an optional string.
pub open spec fn opt_chars(o: Option<String>) -> Option<Seq<char>> {
    match o {
        Some(s) => Some(s@),
        None => None,
    }
}

impl View for TargetInfo {
    type V = TargetView;

    open spec fn view(&self) -> TargetView {
        TargetView {
            target_id: opt_chars(self.target_id),
            kind: opt_chars(self.kind),
            url: self.url@,
            title: self.title@,
        }
    }
}

/// The entry is a page.
pub open spec fn is_page(t: TargetView) -> bool {
    t.kind == Some("page"@)
}

/// The entry is a page an agent can use.
pub open spec fn usable_page(t: TargetView) -> bool {
    is_page(t) && !is_internal_spec(t.url)
}

/// The entry is a usable page that shows something.
pub open spec fn loaded_page(t: TargetView) -> bool {
    usable_page(t) && t.url.len() > 0 && t.url != "about:blank"@
}

/// The views of a list of targets.
pub open spec fn targets_view(xs: Seq<TargetInfo>) -> Seq<TargetView> {
    xs.map_values(|t: TargetInfo| t@)
}

/// The last loaded page among the first `n` entries.
pub open spec fn last_loaded(xs: Seq<TargetView>, n: int) -> Option<int>
    decreases n,
{
    if n <= 0 {
        None
    } else if loaded_page(xs[n - 1]) {
        Some(n - 1)
    } else {
        last_loaded(xs, n - 1)
    }
}

/// The first usable page from index `i` on.
pub open spec fn first_usable(xs: Seq<TargetView>, i: int) -> Option<int>
    decreases xs.len() - i,
{
    if i < 0 || i >= xs.len() {
        None
    } else if usable_page(xs[i]) {
        Some(i)
    } else {
        first_usable(xs, i + 1)
    }
}

/// The tab to attach to: the remembered one if it is still a page, else
/// the last page that shows something, else the first usable page.
pub open spec fn choose_tab_spec(xs: Seq<TargetView>, current: Option<Seq<char>>) -> Option<Seq<char>> {
    if current is Some && exists|i: int|
        0 <= i < xs.len() && xs[i].target_id == current && is_page(#[trigger] xs[i]) {
        current
    } else {
        let pick = match last_loaded(xs, xs.len() as int) {
            Some(i) => Some(i),
            None => first_usable(xs, 0),
        };
        match pick {
            Some(i) => xs[i].target_id,
            None => None,
        }
    }
}

fn opt_eq(a: &Option<String>, b: &str) -> (r: bool)
    ensures
        r == (opt_chars(*a) == Some(b@)),
{
    match a {
        Some(s) => {
            let x = chars_of(s.as_str());
            is_text(x.as_slice(), b)
        },
        None => false,
    }
}

fn page_flags(t: &TargetInfo) -> (r: (bool, bool, bool))
    ensures
        r.0 == is_page(t@),
        r.1 == usable_page(t@),
        r.2 == loaded_page(t@),
{
    let page = opt_eq(&t.kind, "page");
    let u = chars_of(t.url.as_str());
    let usable = page && !is_internal_chars(u.as_slice());
    let loaded = usable && u.len() > 0 && !is_text(u.as_slice(), "about:blank");
    (page, usable, loaded)
}

fn clone_opt(o: &Option<String>) -> (r: Option<String>)
    ensures
        opt_chars(r) == opt_chars(*o),
{
    match o {
        Some(s) => Some(string_of(chars_of(s.as_str()).as_slice())),
        None => None,
    }
}

/// The view of an optional text.
pub open spec fn opt_str(o: Option<&str>) -> Option<Seq<char>> {
    match o {
        Some(c) => Some(c@),
        None => None,
    }
}

/// No entry is the page `cur`.
pub open spec fn current_absent(v: Seq<TargetView>, cur: Option<Seq<char>>) -> bool {
    !(cur is Some && exists|i: int| 0 <= i < v.len() && v[i].target_id == cur && is_page(#[trigger] v[i]))
}

/// The tab to attach to among `xs`, given the remembered tab `current`.
pub fn choose_tab(xs: &[TargetInfo], current: Option<&str>) -> (r: Option<String>)
    ensures
        opt_chars(r) == choose_tab_spec(targets_view(xs@), opt_str(current)),
{
    let ghost v = targets_view(xs@);
    let ghost cur = opt_str(current);
    if let Some(c) = current {
        let mut i: usize = 0;
        while i < xs.len()
            invariant
                i <= xs@.len(),
                v == targets_view(xs@),
                cur == Some(c@),
                cur == opt_str(current),
                forall|j: int| 0 <= j < i ==> !(v[j].target_id == cur && is_page(#[trigger] v[j])),
            decreases xs@.len() - i,
        {
            let (page, _, _) = page_flags(&xs[i]);
            if page && opt_eq(&xs[i].target_id, c) {
                assert(v[i as int] == xs@[i as int]@);
                assert(v[i as int].target_id == cur && is_page(v[i as int]));
                let r = string_of(chars_of(c).as_slice());
                assert(choose_tab_spec(v, cur) == cur);
                assert(opt_chars(Some(r)) == cur);
                return Some(r);
            }
            assert(v[i as int] == xs@[i as int]@);
            i = i + 1;
        }
    }
    assert(current_absent(v, cur));
    let mut k: usize = xs.len();
    while k > 0
        invariant
            k <= xs@.len(),
            v == targets_view(xs@),
            last_loaded(v, xs@.len() as int) == last_loaded(v, k as int),
            cur == opt_str(current),
            current_absent(v, cur),
        decreases k,
    {
        let (_, _, loaded) = page_flags(&xs[k - 1]);
        assert(v[k - 1] == xs@[k - 1]@);
        if loaded {
            assert(last_loaded(v, k as int) == Some(k - 1));
            let r = clone_opt(&xs[k - 1].target_id);
            assert(opt_chars(r) == v[k - 1].target_id);
            assert(choose_tab_spec(v, cur) == v[k - 1].target_id);
            return r;
        }
        k = k - 1;
    }
    let mut i: usize = 0;
    while i < xs.len()
        invariant
            i <= xs@.len(),
            v == targets_view(xs@),
            first_usable(v, 0) == first_usable(v, i as int),
            last_loaded(v, xs@.len() as int) is None,
            cur == opt_str(current),
            current_absent(v, cur),
        decreases xs@.len() - i,
    {
        let (_, usable, _) = page_flags(&xs[i]);
        assert(v[i as int] == xs@[i as int]@);
        if usable {
            assert(first_usable(v, i as int) == Some(i as int));
            let r = clone_opt(&xs[i].target_id);
            assert(opt_chars(r) == v[i as int].target_id);
            assert(choose_tab_spec(v, cur) == v[i as int].target_id);
            return r;
        }
        i = i + 1;
    }
    assert(first_usable(v, xs@.len() as int) is None);
    None
}

// ---------------------------------------------------------------------------
// Tab and target arguments
// ---------------------------------------------------------------------------

/// Bytes `c` takes in UTF-8.
pub open spec fn utf8_len(c: char) -> nat {
    if (c as u32) < 0x80 {
        1
    } else if (c as u32) < 0x800 {
        2
    } else if (c as u32) < 0x10000 {
        3
    } else {
        4
    }
}

/// Bytes `s` takes in UTF-8.
pub open spec fn byte_len(s: Seq<char>) -> nat
    decreases s.len(),
{
    if s.len() == 0 { 0 } else { byte_len(s.drop_last()) + utf8_len(s.last()) }
}

/// Whether the UTF-8 length of `s` exceeds `n`.
fn byte_len_exceeds(s: &[char], n: usize) -> (r: bool)
    ensures
        r == (byte_len(s@) > n),
{
    let mut total: usize = 0;
    let mut i: usize = 0;
    while i < s.len()
        invariant
            i <= s@.len(),
            total <= n,
            total == byte_len(s@.take(i as int)),
        decreases s@.len() - i,
    {
        let c = s[i];
        let w: usize = if (c as u32) < 0x80 {
            1
        } else if (c as u32) < 0x800 {
            2
        } else if (c as u32) < 0x10000 {
            3
        } else {
            4
        };
        assert(s@.take(i as int + 1).drop_last() =~= s@.take(i as int));
        if w > n - total {
            proof {
                lemma_byte_len_prefix(s@, i as int + 1);
            }
            return true;
        }
        total = total + w;
        i = i + 1;
    }
    assert(s@.take(s@.len() as int) =~= s@);
    false
}

proof fn lemma_byte_len_prefix(s: Seq<char>, k: int)
    requires
        0 <= k <= s.len(),
    ensures
        byte_len(s.take(k)) <= byte_len(s),
    decreases s.len() - k,
{
    if k < s.len() {
        lemma_byte_len_prefix(s, k + 1);
        assert(s.take(k + 1).drop_last() =~= s.take(k));
    } else {
        assert(s.take(k) =~= s);
    }
}

/// How a tab argument names its tab.
pub enum TabRef {
    /// A target id, used as given.
    Id(String),
    /// The index among the page targets.
    Index(usize),
}

/// The tab argument was neither a target id nor an index.
#[derive(Debug, PartialEq, Eq)]
pub enum TabError {
    /// Not a numeric index nor a target id.
    BadTarget(String),
    /// No page target at that index.
    NotFound,
}

/// A tab argument longer than eight bytes that is not all digits is a
/// target id.
pub open spec fn is_tab_id(t: Seq<char>) -> bool {
    byte_len(t) > 8 && !all_digits(t)
}

fn all_digits_exec(s: &[char]) -> (r: bool)
    ensures
        r == all_digits(s@),
{
    let mut i: usize = 0;
    while i < s.len()
        invariant
            i <= s@.len(),
            forall|j: int| 0 <= j < i ==> crate::text::is_digit(#[trigger] s@[j]),
        decreases s@.len() - i,
    {
        if !('0' <= s[i] && s[i] <= '9') {
            return false;
        }
        i = i + 1;
    }
    true
}

/// Classifies a tab argument: a target id, or a numeric index.
pub fn tab_ref(target: &str) -> (r: Result<TabRef, TabError>)
    ensures
        match r {
            Ok(TabRef::Id(s)) => is_tab_id(target@) && s@ == target@,
            Ok(TabRef::Index(i)) => !is_tab_id(target@) && parse_bounded(target@, false, 0, usize::MAX as int) == Some(i as int),
            Err(TabError::BadTarget(s)) => !is_tab_id(target@) && parse_bounded(target@, false, 0, usize::MAX as int) is None && s@ == target@,
            Err(TabError::NotFound) => false,
        },
{
    let cs = chars_of(target);
    if byte_len_exceeds(cs.as_slice(), 8) && !all_digits_exec(cs.as_slice()) {
        return Ok(TabRef::Id(string_of(cs.as_slice())));
    }
    match parse_usize(cs.as_slice()) {
        Some(i) => Ok(TabRef::Index(i)),
        None => Err(TabError::BadTarget(string_of(cs.as_slice()))),
    }
}

/// The kind of `t` is one of `kinds`.
pub open spec fn kind_in(t: TargetView, kinds: Seq<&str>) -> bool {
    exists|j: int| 0 <= j < kinds.len() && t.kind == Some(kinds[j]@)
}

/// Index of the `idx`-th entry from `i` on whose kind is one of `kinds`.
pub open spec fn nth_of_kind(v: Seq<TargetView>, i: int, idx: nat, kinds: Seq<&str>) -> Option<int>
    decreases v.len() - i,
{
    if i < 0 || i >= v.len() {
        None
    } else if kind_in(v[i], kinds) {
        if idx == 0 { Some(i) } else { nth_of_kind(v, i + 1, (idx - 1) as nat, kinds) }
    } else {
        nth_of_kind(v, i + 1, idx, kinds)
    }
}

fn kind_in_exec(t: &TargetInfo, kinds: &[&str]) -> (r: bool)
    ensures
        r == kind_in(t@, kinds@),
{
    let mut j: usize = 0;
    while j < kinds.len()
        invariant
            j <= kinds@.len(),
            forall|k: int| 0 <= k < j ==> t@.kind != Some(#[trigger] kinds@[k]@),
        decreases kinds@.len() - j,
    {
        if opt_eq(&t.kind, kinds[j]) {
            return true;
        }
        j = j + 1;
    }
    false
}

/// Index of the `idx`-th entry whose kind is one of `kinds`.
fn nth_of_kind_exec(xs: &[TargetInfo], idx: usize, kinds: &[&str]) -> (r: Option<usize>)
    ensures
        match r {
            Some(i) => i < xs@.len() && nth_of_kind(targets_view(xs@), 0, idx as nat, kinds@) == Some(i as int),
            None => nth_of_kind(targets_view(xs@), 0, idx as nat, kinds@) is None,
        },
{
    let ghost v = targets_view(xs@);
    let mut i: usize = 0;
    let mut left: usize = idx;
    while i < xs.len()
        invariant
            i <= xs@.len(),
            v == targets_view(xs@),
            nth_of_kind(v, 0, idx as nat, kinds@) == nth_of_kind(v, i as int, left as nat, kinds@),
        decreases xs@.len() - i,
    {
        assert(v[i as int] == xs@[i as int]@);
        if kind_in_exec(&xs[i], kinds) {
            if left == 0 {
                return Some(i);
            }
            left = left - 1;
        }
        i = i + 1;
    }
    None
}

/// The target id of the `idx`-th page target.
pub fn nth_page(xs: &[TargetInfo], idx: usize) -> (r: Result<String, TabError>)
    ensures
        match r {
            Ok(id) => nth_of_kind(targets_view(xs@), 0, idx as nat, seq!["page"]) matches Some(i)
                && targets_view(xs@)[i].target_id == Some(id@),
            Err(e) => e == TabError::NotFound && match nth_of_kind(targets_view(xs@), 0, idx as nat, seq!["page"]) {
                Some(i) => targets_view(xs@)[i].target_id is None,
                None => true,
            },
        },
{
    let kinds: [&str; 1] = ["page"];
    assert(kinds@ =~= seq!["page"]);
    match nth_of_kind_exec(xs, idx, kinds.as_slice()) {
        Some(i) => {
            assert(targets_view(xs@)[i as int] == xs@[i as int]@);
            match clone_opt(&xs[i].target_id) {
                Some(id) => Ok(id),
                None => Err(TabError::NotFound),
            }
        },
        None => Err(TabError::NotFound),
    }
}

/// A target argument matched no target.
#[derive(Debug, PartialEq, Eq)]
pub enum TargetError {
    /// The numeric index is past the matching targets.
    NotFound,
    /// Neither id, index, nor URL / title text matched.
    NotFoundNamed(String),
}

/// Index of the first entry from `i` on of one of `kinds` whose URL or
/// title contains `text`.
pub open spec fn first_mentioning(v: Seq<TargetView>, i: int, text: Seq<char>, kinds: Seq<&str>) -> Option<int>
    decreases v.len() - i,
{
    if i < 0 || i >= v.len() {
        None
    } else if kind_in(v[i], kinds) && (contains_seq(v[i].url, text) || contains_seq(v[i].title, text)) {
        Some(i)
    } else {
        first_mentioning(v, i + 1, text, kinds)
    }
}

/// What `resolve_target` answers: an exact id among the matching targets,
/// else a numeric index among them, else the first whose URL or title
/// mentions the argument.
pub open spec fn resolve_target_spec(v: Seq<TargetView>, target: Seq<char>, kinds: Seq<&str>) -> Result<Seq<char>, Option<Seq<char>>> {
    if exists|i: int| 0 <= i < v.len() && kind_in(#[trigger] v[i], kinds) && v[i].target_id == Some(target) {
        Ok(target)
    } else {
        match parse_bounded(target, false, 0, usize::MAX as int) {
            Some(idx) => match nth_of_kind(v, 0, idx as nat, kinds) {
                Some(i) => match v[i].target_id {
                    Some(id) => Ok(id),
                    None => Err(None),
                },
                None => Err(None),
            },
            None => match first_mentioning(v, 0, target, kinds) {
                Some(i) => match v[i].target_id {
                    Some(id) => Ok(id),
                    None => Err(Some(target)),
                },
                None => Err(Some(target)),
            },
        }
    }
}

/// Resolves a target argument (id, index or URL / title text) among the
/// targets of the given kinds.
pub fn resolve_target(target: &str, kinds: &[&str], xs: &[TargetInfo]) -> (r: Result<String, TargetError>)
    ensures
        match r {
            Ok(id) => resolve_target_spec(targets_view(xs@), target@, kinds@) == Ok::<Seq<char>, Option<Seq<char>>>(id@),
            Err(TargetError::NotFound) => resolve_target_spec(targets_view(xs@), target@, kinds@) == Err::<Seq<char>, Option<Seq<char>>>(None),
            Err(TargetError::NotFoundNamed(t)) => resolve_target_spec(targets_view(xs@), target@, kinds@) == Err::<Seq<char>, Option<Seq<char>>>(Some(t@)),
        },
{
    let ghost v = targets_view(xs@);
    let tc = chars_of(target);
    let mut i: usize = 0;
    while i < xs.len()
        invariant
            i <= xs@.len(),
            v == targets_view(xs@),
            tc@ == target@,
            forall|j: int| 0 <= j < i ==> !(kind_in(#[trigger] v[j], kinds@) && v[j].target_id == Some(target@)),
        decreases xs@.len() - i,
    {
        assert(v[i as int] == xs@[i as int]@);
        if kind_in_exec(&xs[i], kinds) && opt_eq(&xs[i].target_id, target) {
            return Ok(string_of(tc.as_slice()));
        }
        i = i + 1;
    }
    match parse_usize(tc.as_slice()) {
        Some(idx) => match nth_of_kind_exec(xs, idx, kinds) {
            Some(k) => {
                assert(v[k as int] == xs@[k as int]@);
                match clone_opt(&xs[k].target_id) {
                    Some(id) => Ok(id),
                    None => Err(TargetError::NotFound),
                }
            },
            None => Err(TargetError::NotFound),
        },
        None => {
            let mut k: usize = 0;
            while k < xs.len()
                invariant
                    k <= xs@.len(),
                    v == targets_view(xs@),
                    tc@ == target@,
                    first_mentioning(v, 0, target@, kinds@) == first_mentioning(v, k as int, target@, kinds@),
                forall|j: int| 0 <= j < xs@.len() ==> !(kind_in(#[trigger] v[j], kinds@) && v[j].target_id == Some(target@)),
                parse_bounded(target@, false, 0, usize::MAX as int) is None,
                decreases xs@.len() - k,
            {
                assert(v[k as int] == xs@[k as int]@);
                if kind_in_exec(&xs[k], kinds) {
                    let u = chars_of(xs[k].url.as_str());
                    let t = chars_of(xs[k].title.as_str());
                    if contains(u.as_slice(), tc.as_slice()) || contains(t.as_slice(), tc.as_slice()) {
                        assert(first_mentioning(v, k as int, target@, kinds@) == Some(k as int));
                        return match clone_opt(&xs[k].target_id) {
                            Some(id) => Ok(id),
                            None => Err(TargetError::NotFoundNamed(string_of(tc.as_slice()))),
                        };
                    }
                }
                k = k + 1;
            }
            Err(TargetError::NotFoundNamed(string_of(tc.as_slice())))
        },
    }
}

// ---------------------------------------------------------------------------
// Exceptions
// ---------------------------------------------------------------------------

/// The parts of a `Runtime.evaluate` exception report the message is made
/// of: `exception.description`, the rendered `exception.value` (when
/// present), `exception.className`, `text`, `lineNumber`, `columnNumber`.
pub struct ExceptionDetails {
    pub description: Option<String>,
    pub value: Option<String>,
    pub class_name: Option<String>,
    pub text: Option<String>,
    pub line: Option<u64>,
    pub column: Option<u64>,
}

/// The message describing an exception.
pub open spec fn exception_message_spec(d: ExceptionDetails) -> Seq<char> {
    let desc = if d.description is Some {
        d.description->0@
    } else if d.value is Some {
        d.value->0@
    } else if d.class_name is Some {
        d.class_name->0@
    } else if d.text is Some {
        d.text->0@
    } else {
        "JavaScript evaluation failed"@
    };
    match (d.line, d.column) {
        (Some(l), Some(c)) => desc + " (line "@ + dec_nat(l as nat) + ", column "@ + dec_nat(c as nat) + ")"@,
        _ => desc,
    }
}

/// Renders an exception report for the user.
pub fn exception_message(d: &ExceptionDetails) -> (r: String)
    ensures
        r@ == exception_message_spec(*d),
{
    let mut s = String::new();
    match &d.description {
        Some(x) => push_str(&mut s, x.as_str()),
        None => match &d.value {
            Some(x) => push_str(&mut s, x.as_str()),
            None => match &d.class_name {
                Some(x) => push_str(&mut s, x.as_str()),
                None => match &d.text {
                    Some(x) => push_str(&mut s, x.as_str()),
                    None => push_str(&mut s, "JavaScript evaluation failed"),
                },
            },
        },
    }
    match (d.line, d.column) {
        (Some(l), Some(c)) => {
            push_str(&mut s, " (line ");
            push_u128(&mut s, l as u128);
            push_str(&mut s, ", column ");
            push_u128(&mut s, c as u128);
            push_str(&mut s, ")");
        },
        _ => {},
    }
    s
}

// ---------------------------------------------------------------------------
// Timeouts
// ---------------------------------------------------------------------------

/// Seconds a DevTools call may take: the configured value when it parses as
/// a `u64`, else 15.
pub fn timeout_secs(raw: Option<&str>) -> (r: u64)
    ensures
        r == (match raw {
            Some(s) => match parse_bounded(s@, false, 0, u64::MAX as int) {
                Some(v) => v as u64,
                None => 15,
            },
            None => 15,
        }),
{
    match raw {
        Some(s) => {
            let cs = chars_of(s);
            match parse_u64(cs.as_slice()) {
                Some(v) => v,
                None => 15,
            }
        },
        None => 15,
    }
}

// ---------------------------------------------------------------------------
// Endpoints
// ---------------------------------------------------------------------------

/// `s` without leading and trailing `c`.
pub open spec fn trim_char(s: Seq<char>, c: char) -> Seq<char>
    decreases s.len(),
{
    if s.len() > 0 && s[0] == c {
        trim_char(s.drop_first(), c)
    } else if s.len() > 0 && s.last() == c {
        trim_char(s.drop_last(), c)
    } else {
        s
    }
}

/// `s` without trailing `c`.
pub open spec fn trim_end_char(s: Seq<char>, c: char) -> Seq<char>
    decreases s.len(),
{
    if s.len() > 0 && s.last() == c { trim_end_char(s.drop_last(), c) } else { s }
}

fn trim_char_exec(s: &[char], c: char) -> (r: Vec<char>)
    ensures
        r@ == trim_char(s@, c),
{
    let mut a: usize = 0;
    let mut b: usize = s.len();
    assert(s@.subrange(0, s@.len() as int) =~= s@);
    while a < b && s[a] == c
        invariant
            a <= b == s@.len(),
            trim_char(s@, c) == trim_char(s@.subrange(a as int, b as int), c),
        decreases b - a,
    {
        assert(s@.subrange(a as int, b as int).drop_first() =~= s@.subrange(a as int + 1, b as int));
        a = a + 1;
    }
    while a < b && s[b - 1] == c
        invariant
            a <= b <= s@.len(),
            trim_char(s@, c) == trim_char(s@.subrange(a as int, b as int), c),
            a == b || s@[a as int] != c,
        decreases b - a,
    {
        assert(s@.subrange(a as int, b as int).drop_last() =~= s@.subrange(a as int, b as int - 1));
        b = b - 1;
    }
    slice_to_vec(s, a, b)
}

/// The port named at the end of a DevTools base URL, if non-zero.
pub open spec fn port_hint_spec(base: Seq<char>) -> Option<u16> {
    if exists|j: int| 0 <= j < base.len() && base[j] == ':' {
        let j = choose|j: int| 0 <= j < base.len() && base[j] == ':' && forall|k: int| j < k < base.len() ==> base[k] != ':';
        match parse_bounded(trim_char(base.skip(j + 1), '/'), false, 0, u16::MAX as int) {
            Some(p) => if p != 0 { Some(p as u16) } else { None },
            None => None,
        }
    } else {
        None
    }
}

proof fn lemma_last_colon(s: Seq<char>, j: int)
    requires
        0 <= j < s.len(),
        s[j] == ':',
        forall|k: int| j < k < s.len() ==> s[k] != ':',
    ensures
        (choose|i: int| 0 <= i < s.len() && s[i] == ':' && forall|k: int| i < k < s.len() ==> s[k] != ':') == j,
{
    let i = choose|i: int| 0 <= i < s.len() && s[i] == ':' && forall|k: int| i < k < s.len() ==> s[k] != ':';
    assert(0 <= i < s.len() && s[i] == ':' && forall|k: int| i < k < s.len() ==> s[k] != ':');
    if i < j {
        assert(s[j] != ':');
    }
    if i > j {
        assert(s[i] != ':');
    }
}

/// The port a DevTools base URL names (`http://host:PORT/`), zero excluded.
pub fn port_hint(base: &str) -> (r: Option<u16>)
    ensures
        r == port_hint_spec(base@),
{
    let cs = chars_of(base);
    match rfind_char(cs.as_slice(), ':') {
        None => None,
        Some(j) => {
            proof {
                lemma_last_colon(cs@, j as int);
            }
            assert(cs@.len() == cs.len());
            let tail = slice_to_vec(cs.as_slice(), j + 1, cs.len());
            assert(tail@ =~= cs@.skip(j + 1));
            let t = trim_char_exec(tail.as_slice(), '/');
            match parse_u16(t.as_slice()) {
                Some(p) => if p != 0 {
                    Some(p)
                } else {
                    None
                },
                None => None,
            }
        },
    }
}

/// `l` without one trailing carriage return.
pub open spec fn strip_cr(l: Seq<char>) -> Seq<char> {
    if l.len() > 0 && l.last() == '\r' { l.drop_last() } else { l }
}

/// The lines of `s` as `str::lines` yields them: split at `\n`, a `\r`
/// before the `\n` dropped, no empty line after a final `\n`.
#[verifier::opaque]
pub open spec fn text_lines(s: Seq<char>) -> Seq<Seq<char>>
    decreases s.len(),
{
    if s.len() == 0 {
        Seq::empty()
    } else {
        match first_index(s, '\n') {
            None => seq![s],
            Some(i) => if 0 <= i < s.len() {
                seq![strip_cr(s.take(i))] + text_lines(s.skip(i + 1))
            } else {
                seq![s]
            },
        }
    }
}

/// The first line of `s` (from index `from`) and where the next one starts.
fn first_line(s: &[char], from: usize) -> (r: (Vec<char>, usize))
    requires
        from < s@.len(),
    ensures
        from < r.1 <= s@.len(),
        text_lines(s@.skip(from as int)) == seq![r.0@] + text_lines(s@.skip(r.1 as int)),
{
    let ghost t = s@.skip(from as int);
    let n = s.len();
    reveal(text_lines);
    match find_char_from(s, '\n', from) {
        Some(i) => {
            proof {
                assert forall|k: int| 0 <= k < i - from implies t[k] != '\n' by {
                    assert(t[k] == s@[from + k]);
                }
                lemma_first_index(t, '\n', i - from);
                assert(t.take(i - from) =~= s@.subrange(from as int, i as int));
                assert(t.skip(i - from + 1) =~= s@.skip(i + 1));
            }
            let mut l = slice_to_vec(s, from, i);
            if l.len() > 0 && l[l.len() - 1] == '\r' {
                let ghost before = l@;
                l.pop();
                assert(l@ =~= before.drop_last());
            }
            (l, i + 1)
        },
        None => {
            proof {
                assert forall|k: int| 0 <= k < t.len() implies t[k] != '\n' by {
                    assert(t[k] == s@[from + k]);
                }
                lemma_first_index_none(t, '\n');
                assert(s@.skip(s@.len() as int) =~= Seq::<char>::empty());
                assert(text_lines(Seq::<char>::empty()) == Seq::<Seq<char>>::empty());
                assert(t =~= s@.subrange(from as int, s@.len() as int));
            }
            let l = slice_to_vec(s, from, s.len());
            assert(seq![l@] + Seq::<Seq<char>>::empty() =~= seq![l@]);
            (l, s.len())
        },
    }
}

/// The DevToolsActivePort file could not be read.
#[derive(Debug, PartialEq, Eq)]
pub enum PortFileError {
    /// The file is empty.
    MissingPort,
    /// The first line is not a port number.
    BadPort,
    /// There is no second line with the browser path.
    MissingPath,
}

/// What the DevToolsActivePort file `raw` gives for the port `hint`: the
/// browser WebSocket URL, or `None` when the file names another port.
pub open spec fn active_port_spec(raw: Seq<char>, hint: Option<u16>) -> Result<Option<Seq<char>>, PortFileError> {
    let ls = text_lines(raw);
    if ls.len() == 0 {
        Err(PortFileError::MissingPort)
    } else {
        match parse_bounded(ls[0], false, 0, u16::MAX as int) {
            None => Err(PortFileError::BadPort),
            Some(port) => if hint is Some && hint != Some(port as u16) {
                Ok(None)
            } else if ls.len() < 2 {
                Err(PortFileError::MissingPath)
            } else {
                Ok(Some("ws://127.0.0.1:"@ + dec_nat(port as nat) + ls[1]))
            },
        }
    }
}

/// Reads the browser WebSocket URL from the contents of a
/// DevToolsActivePort file.
pub fn active_port_ws(raw: &str, hint: Option<u16>) -> (r: Result<Option<String>, PortFileError>)
    ensures
        match r {
            Ok(Some(u)) => active_port_spec(raw@, hint) == Ok::<Option<Seq<char>>, PortFileError>(Some(u@)),
            Ok(None) => active_port_spec(raw@, hint) == Ok::<Option<Seq<char>>, PortFileError>(None),
            Err(e) => active_port_spec(raw@, hint) == Err::<Option<Seq<char>>, PortFileError>(e),
        },
{
    let cs = chars_of(raw);
    assert(cs@.skip(0) =~= cs@);
    if cs.len() == 0 {
        proof {
            reveal(text_lines);
        }
        return Err(PortFileError::MissingPort);
    }
    let (l0, next) = first_line(cs.as_slice(), 0);
    let port = match parse_u16(l0.as_slice()) {
        Some(p) => p,
        None => return Err(PortFileError::BadPort),
    };
    match hint {
        Some(h) => if h != port {
            return Ok(None);
        },
        None => {},
    }
    if next == cs.len() {
        proof {
            reveal(text_lines);
            assert(cs@.skip(next as int) =~= Seq::<char>::empty());
        }
        return Err(PortFileError::MissingPath);
    }
    let (l1, _) = first_line(cs.as_slice(), next);
    let mut s = String::new();
    push_str(&mut s, "ws://127.0.0.1:");
    push_u128(&mut s, port as u128);
    push_chars(&mut s, l1.as_slice());
    Ok(Some(s))
}

/// An entry of the DevTools `/json/list` answer.
pub struct PageEntry {
    pub id: Option<String>,
    pub kind: Option<String>,
    pub ws_url: Option<String>,
}

/// The entry chosen for a page connection: the one with the requested id,
/// else the first page.
pub open spec fn choose_page_spec(xs: Seq<PageEntry>, target: Option<Seq<char>>) -> Option<int> {
    if target is Some && exists|i: int| 0 <= i < xs.len() && opt_chars(#[trigger] xs[i].id) == target {
        Some(choose|i: int| 0 <= i < xs.len() && opt_chars(xs[i].id) == target && forall|j: int| 0 <= j < i ==> opt_chars(#[trigger] xs[j].id) != target)
    } else if exists|i: int| 0 <= i < xs.len() && opt_chars(#[trigger] xs[i].kind) == Some("page"@) {
        Some(choose|i: int| 0 <= i < xs.len() && opt_chars(xs[i].kind) == Some("page"@) && forall|j: int| 0 <= j < i ==> opt_chars(#[trigger] xs[j].kind) != Some("page"@))
    } else {
        None
    }
}

/// The WebSocket URL of the page to connect to, if the chosen entry has one.
pub fn choose_page_ws(xs: &[PageEntry], target: Option<&str>) -> (r: Option<String>)
    ensures
        opt_chars(r) == match choose_page_spec(xs@, opt_str(target)) {
            Some(i) => opt_chars(xs@[i].ws_url),
            None => None,
        },
{
    let ghost tv = opt_str(target);
    if let Some(t) = target {
        let mut i: usize = 0;
        while i < xs.len()
            invariant
                i <= xs@.len(),
                tv == Some(t@),
                tv == opt_str(target),
                forall|j: int| 0 <= j < i ==> opt_chars(#[trigger] xs@[j].id) != tv,
            decreases xs@.len() - i,
        {
            if opt_eq(&xs[i].id, t) {
                let ghost c = choose|k: int| 0 <= k < xs@.len() && opt_chars(xs@[k].id) == tv && forall|j: int| 0 <= j < k ==> opt_chars(#[trigger] xs@[j].id) != tv;
                proof {
                    assert(opt_chars(xs@[i as int].id) == tv);
                    assert(0 <= c < xs@.len() && opt_chars(xs@[c].id) == tv && forall|j: int| 0 <= j < c ==> opt_chars(#[trigger] xs@[j].id) != tv);
                    if c < i {
                        assert(opt_chars(xs@[c].id) != tv);
                    }
                    if c > i {
                        assert(opt_chars(xs@[i as int].id) != tv);
                    }
                }
                return clone_opt(&xs[i].ws_url);
            }
            i = i + 1;
        }
    }
    let mut i: usize = 0;
    while i < xs.len()
        invariant
            i <= xs@.len(),
            tv == opt_str(target),
            !(tv is Some && exists|k: int| 0 <= k < xs@.len() && opt_chars(#[trigger] xs@[k].id) == tv),
            forall|j: int| 0 <= j < i ==> opt_chars(#[trigger] xs@[j].kind) != Some("page"@),
        decreases xs@.len() - i,
    {
        if opt_eq(&xs[i].kind, "page") {
            let ghost c = choose|k: int| 0 <= k < xs@.len() && opt_chars(xs@[k].kind) == Some("page"@) && forall|j: int| 0 <= j < k ==> opt_chars(#[trigger] xs@[j].kind) != Some("page"@);
            proof {
                assert(opt_chars(xs@[i as int].kind) == Some("page"@));
                assert(0 <= c < xs@.len() && opt_chars(xs@[c].kind) == Some("page"@) && forall|j: int| 0 <= j < c ==> opt_chars(#[trigger] xs@[j].kind) != Some("page"@));
                if c < i {
                    assert(opt_chars(xs@[c].kind) != Some("page"@));
                }
                if c > i {
                    assert(opt_chars(xs@[i as int].kind) != Some("page"@));
                }
            }
            return clone_opt(&xs[i].ws_url);
        }
        i = i + 1;
    }
    None
}

/// `base` without trailing `/`, followed by `path`.
pub fn endpoint(base: &str, path: &str) -> (r: String)
    ensures
        r@ == trim_end_char(base@, '/') + path@,
{
    let mut cs = chars_of(base);
    while cs.len() > 0 && cs[cs.len() - 1] == '/'
        invariant
            trim_end_char(cs@, '/') == trim_end_char(base@, '/'),
        decreases cs@.len(),
    {
        let ghost before = cs@;
        cs.pop();
        assert(cs@ =~= before.drop_last());
    }
    let mut s = string_of(cs.as_slice());
    push_str(&mut s, path);
    s
}

proof fn lemma_last_loaded(xs: Seq<TargetView>, n: int)
    requires
        n <= xs.len(),
    ensures
        last_loaded(xs, n) matches Some(i) ==> 0 <= i < n && loaded_page(xs[i]),
    decreases n,
{
    if n > 0 && !loaded_page(xs[n - 1]) {
        lemma_last_loaded(xs, n - 1);
    }
}

proof fn lemma_first_usable(xs: Seq<TargetView>, i: int)
    ensures
        first_usable(xs, i) matches Some(k) ==> i <= k < xs.len() && usable_page(xs[k]),
    decreases xs.len() - i,
{
    if 0 <= i < xs.len() && !usable_page(xs[i]) {
        lemma_first_usable(xs, i + 1);
    }
}

/// Automatic tab selection skips browser-internal pages: the chosen tab is
/// the remembered page, or a page that is not a `chrome://`,
/// `chrome-untrusted://`, `devtools://` or extension page.
pub proof fn law_auto_tab_skips_internal(xs: Seq<TargetView>, current: Option<Seq<char>>)
    ensures
        choose_tab_spec(xs, current) matches Some(id) ==> exists|i: int|
            0 <= i < xs.len() && xs[i].target_id == Some(id) && is_page(#[trigger] xs[i])
                && (!is_internal_spec(xs[i].url) || current == Some(id)),
{
    lemma_last_loaded(xs, xs.len() as int);
    lemma_first_usable(xs, 0);
    if choose_tab_spec(xs, current) is Some {
        if current is Some && exists|i: int|
            0 <= i < xs.len() && xs[i].target_id == current && is_page(#[trigger] xs[i]) {
        } else {
            let k = match last_loaded(xs, xs.len() as int) {
                Some(i) => i,
                None => first_usable(xs, 0)->0,
            };
            assert(xs[k].target_id == choose_tab_spec(xs, current));
            assert(usable_page(xs[k]));
        }
    }
}

/// The page shows something: a browser page that is not internal, with a
/// URL that is neither empty nor `about:blank`.
pub open spec fn shows_content(t: TargetView) -> bool {
    &&& t.kind == Some("page"@)
    &&& !is_internal_spec(t.url)
    &&& t.url.len() > 0
    &&& t.url != "about:blank"@
}

proof fn lemma_last_loaded_is_last(xs: Seq<TargetView>, n: int, k: int)
    requires
        n <= xs.len(),
        0 <= k < n,
        loaded_page(xs[k]),
    ensures
        last_loaded(xs, n) matches Some(i) && k <= i < n && loaded_page(xs[i])
            && forall|m: int| i < m < n ==> !loaded_page(#[trigger] xs[m]),
    decreases n,
{
    if !loaded_page(xs[n - 1]) {
        lemma_last_loaded_is_last(xs, n - 1, k);
    }
}

/// With no remembered page to go back to, automatic tab choice takes a page
/// that shows something whenever there is one: the last such page, never
/// an `about:blank` or empty one before it.
pub proof fn law_auto_tab_prefers_loaded_pages(xs: Seq<TargetView>, current: Option<Seq<char>>, k: int)
    requires
        !(current is Some && exists|i: int|
            0 <= i < xs.len() && xs[i].target_id == current && #[trigger] xs[i].kind == Some("page"@)),
        0 <= k < xs.len(),
        shows_content(xs[k]),
    ensures
        exists|j: int| k <= j < xs.len() && #[trigger] shows_content(xs[j])
            && choose_tab_spec(xs, current) == xs[j].target_id
            && forall|m: int| j < m < xs.len() ==> !shows_content(#[trigger] xs[m]),
{
    lemma_last_loaded_is_last(xs, xs.len() as int, k);
    let i = last_loaded(xs, xs.len() as int)->0;
    assert(!(current is Some && exists|a: int|
        0 <= a < xs.len() && xs[a].target_id == current && is_page(#[trigger] xs[a]))) by {
        if current is Some && exists|a: int|
            0 <= a < xs.len() && xs[a].target_id == current && is_page(#[trigger] xs[a]) {
            let a = choose|a: int| 0 <= a < xs.len() && xs[a].target_id == current && is_page(#[trigger] xs[a]);
            assert(xs[a].kind == Some("page"@));
        }
    }
    assert(choose_tab_spec(xs, current) == xs[i].target_id);
    assert forall|m: int| i < m < xs.len() implies !shows_content(#[trigger] xs[m]) by {
        assert(!loaded_page(xs[m]));
    }
    assert(shows_content(xs[i]));
}

// ---------------------------------------------------------------------------
// Target arguments found by text
// ---------------------------------------------------------------------------

proof fn lemma_first_mentioning_at(v: Seq<TargetView>, s: int, i: int, text: Seq<char>, kinds: Seq<&str>)
    requires
        0 <= s <= i < v.len(),
        kind_in(v[i], kinds),
        contains_seq(v[i].url, text) || contains_seq(v[i].title, text),
        forall|j: int| s <= j < i && #[trigger] kind_in(v[j], kinds) ==> !contains_seq(v[j].url, text)
            && !contains_seq(v[j].title, text),
    ensures
        first_mentioning(v, s, text, kinds) == Some(i),
    decreases i - s,
{
    if s < i {
        lemma_first_mentioning_at(v, s + 1, i, text, kinds);
    }
}

/// A target argument that is neither the id of a target of the wanted kinds
/// nor a number names the first such target whose URL or title contains
/// it.
pub proof fn law_target_found_by_url_or_title(v: Seq<TargetView>, target: Seq<char>, kinds: Seq<&str>, i: int, id: Seq<char>)
    requires
        forall|j: int| 0 <= j < v.len() && #[trigger] kind_in(v[j], kinds) ==> v[j].target_id != Some(target),
        parse_bounded(target, false, 0, usize::MAX as int) is None,
        0 <= i < v.len(),
        kind_in(v[i], kinds),
        contains_seq(v[i].url, target) || contains_seq(v[i].title, target),
        forall|j: int| 0 <= j < i && #[trigger] kind_in(v[j], kinds) ==> !contains_seq(v[j].url, target)
            && !contains_seq(v[j].title, target),
        v[i].target_id == Some(id),
    ensures
        resolve_target_spec(v, target, kinds) == Ok::<Seq<char>, Option<Seq<char>>>(id),
{
    lemma_first_mentioning_at(v, 0, i, target, kinds);
}

} // verus!

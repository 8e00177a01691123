//! JavaScript snippets injected into the page, and the rewriting of
//! expressions with a top-level `return`.

use vstd::prelude::*;
use crate::json::{json_quote, json_string_literal};
use crate::text::{
    chars_of, dec_nat, has_prefix, is_whitespace, lead_ws, occurs_at, occurs_at_exec, push_chars,
    push_i64, push_str, push_u128, string_of, trim_start_seq, dec_int, is_ws,
};

verus! {

pub const WAIT_LOAD_JS: &'static str ="new Promise(r=>document.readyState==='complete'?r(true):addEventListener('load',()=>r(true),{once:true}))";
pub const ACTION_JS: &'static str = r#"({el(t){return t.startsWith('@')?document.querySelector(`[data-browser-control-ref="${t.slice(1)}"]`):document.querySelector(t)},point(t){const e=this.el(t);if(!e)throw new Error(`not found: ${t}`);e.scrollIntoView({block:'center'});const r=e.getBoundingClientRect();return{x:Math.round(r.left+r.width/2),y:Math.round(r.top+r.height/2)}},click(t){const e=this.el(t);if(!e)throw new Error(`not found: ${t}`);e.scrollIntoView({block:'center'});e.click();return true},fill(t,v){const e=this.el(t);if(!e)throw new Error(`not found: ${t}`);e.scrollIntoView({block:'center'});e.focus();const P=e.tagName==='TEXTAREA'?HTMLTextAreaElement.prototype:HTMLInputElement.prototype,D=Object.getOwnPropertyDescriptor(P,'value');D&&D.set?D.set.call(e,v):e.value=v;e.dispatchEvent(new InputEvent('input',{bubbles:true,inputType:'insertText',data:v}));e.dispatchEvent(new Event('change',{bubbles:true}));return true},select(t,v){const e=this.el(t);if(!e)throw new Error(`not found: ${t}`);e.value=v;e.dispatchEvent(new Event('input',{bubbles:true}));e.dispatchEvent(new Event('change',{bubbles:true}));return true}})"#;
pub const SNAPSHOT_JS: &'static str = r#"(()=>{const vis=e=>{const r=e.getBoundingClientRect(),s=getComputedStyle(e);return r.width>0&&r.height>0&&s.visibility!=='hidden'&&s.display!=='none'};const kind=e=>e.tagName==='A'?'link':/INPUT|TEXTAREA/.test(e.tagName)?'textbox':e.tagName==='BUTTON'?'button':e.getAttribute('role')||'element';const label=e=>(e.innerText||e.value||e.placeholder||e.ariaLabel||e.title||'').trim().replace(/\s+/g,' ').slice(0,100);const q='a,button,input,textarea,select,[role],[onclick],[tabindex],summary,[contenteditable=true]';const elements=[...document.querySelectorAll(q)].filter(vis).slice(0,200).map((e,i)=>{const ref=`e${i+1}`;e.setAttribute('data-browser-control-ref',ref);const r=e.getBoundingClientRect();return{ref,kind:kind(e),text:label(e),x:Math.round(r.x),y:Math.round(r.y),w:Math.round(r.width),h:Math.round(r.height)}});return{url:location.href,title:document.title,elements}})()"#;
pub const PAGE_INFO_JS: &'static str = "({url:location.href,title:document.title,readyState:document.readyState,w:innerWidth,h:innerHeight,sx:scrollX,sy:scrollY,pw:document.documentElement.scrollWidth,ph:document.documentElement.scrollHeight})";

/// Piece 0 of the inspect script template.
pub const INSPECT_JS_0: &'static str = r#"(()=>{const needle="#;

/// Piece 1 of the inspect script template.
pub const INSPECT_JS_1: &'static str = r#".toLowerCase(),limit="#;

/// Piece 2 of the inspect script template.
pub const INSPECT_JS_2: &'static str = r#",textLimit="#;

/// Piece 3 of the inspect script template.
pub const INSPECT_JS_3: &'static str = r#";
const clean=s=>(s||'').replace(/\s+/g,' ').trim();
const vis=e=>{const r=e.getBoundingClientRect(),s=getComputedStyle(e);return r.width>0&&r.height>0&&s.visibility!=='hidden'&&s.display!=='none'};
const kind=e=>e.tagName==='A'?'link':/INPUT|TEXTAREA/.test(e.tagName)?'textbox':e.tagName==='SELECT'?'select':e.tagName==='BUTTON'?'button':e.getAttribute('role')||'element';
const body=clean(document.body&&document.body.innerText);
let text=body.slice(0,textLimit);
if(needle){const lo=body.toLowerCase(),hits=[];let at=lo.indexOf(needle),last=-9999;while(at>=0&&hits.length<6){if(at>last+120){hits.push(body.slice(Math.max(0,at-180),Math.min(body.length,at+needle.length+320)));last=at}at=lo.indexOf(needle,at+needle.length)}text=hits.join('\n---\n')||text}
const headings=[...document.querySelectorAll('h1,h2,h3')].map(e=>clean(e.innerText)).filter(Boolean).slice(0,20);
const qsel='a,button,input,textarea,select,[role],[onclick],[tabindex],summary,[contenteditable=true]';
let elements=[...document.querySelectorAll(qsel)].filter(vis).map((e,i)=>{const ref=`e${i+1}`;e.setAttribute('data-browser-control-ref',ref);const r=e.getBoundingClientRect(),txt=clean(e.innerText||e.value||e.placeholder||e.ariaLabel||e.title||e.getAttribute('name')||''),href=e.href||'';return{ref,kind:kind(e),text:txt.slice(0,140),href,x:Math.round(r.x),y:Math.round(r.y),w:Math.round(r.width),h:Math.round(r.height)}});
if(needle)elements=elements.filter(e=>(e.text+' '+e.href+' '+e.kind).toLowerCase().includes(needle));
return{url:location.href,title:document.title,readyState:document.readyState,query:"#;

/// Piece 4 of the inspect script template.
pub const INSPECT_JS_4: &'static str = r#",text,headings,elements:elements.slice(0,limit)}})()"#;

/// The script could not be assembled: a string did not encode as JSON.
#[derive(Debug, PartialEq, Eq)]
pub enum ScriptError {
    /// JSON encoding of an embedded string failed.
    Encode,
}

// ---------------------------------------------------------------------------
// Top-level `return`
// ---------------------------------------------------------------------------

/// The name for what `char::is_alphanumeric` returns.
pub uninterp spec fn unicode_alphanumeric(c: char) -> bool;

/// Calls `char::is_alphanumeric`, which is true for characters with the
/// Unicode `Alphabetic` or `Numeric` property (std documentation). Claimed:
/// the result is a function of `c` alone, and on ASCII it is exactly the
/// ASCII letters and digits. The Unicode tables themselves are not stated.
#[verifier::external_body]
fn is_alphanumeric(c: char) -> (r: bool)
    ensures
        r == unicode_alphanumeric(c),
        (c as u32) < 128 ==> (r == (('a' <= c && c <= 'z') || ('A' <= c && c <= 'Z') || ('0' <= c && c <= '9'))),
{
    c.is_alphanumeric()
}

/// An ASCII letter or digit.
pub open spec fn is_ascii_alphanumeric(c: char) -> bool {
    ('a' <= c && c <= 'z') || ('A' <= c && c <= 'Z') || ('0' <= c && c <= '9')
}

/// A character that can be part of an identifier word: `_`, an ASCII letter
/// or digit, or a non-ASCII character that Unicode calls alphabetic or
/// numeric.
pub open spec fn is_word_char(c: char) -> bool {
    c == '_' || if (c as u32) < 128 {
        is_ascii_alphanumeric(c)
    } else {
        unicode_alphanumeric(c)
    }
}

/// The keyword `return`.
pub open spec fn return_word() -> Seq<char> {
    seq!['r', 'e', 't', 'u', 'r', 'n']
}

/// `return` occurs at `i` as a whole word.
pub open spec fn return_at(b: Seq<char>, i: int) -> bool {
    &&& occurs_at(b, return_word(), i)
    &&& (i == 0 || !is_word_char(b[i - 1]))
    &&& (i + 6 >= b.len() || !is_word_char(b[i + 6]))
}

/// The character after `i`, or NUL at the end.
pub open spec fn next_char(b: Seq<char>, i: int) -> char {
    if i + 1 < b.len() { b[i + 1] } else { '\0' }
}

/// Scans `b` from index `i` in lexer state `state` (0 code, 1 line comment,
/// 2 block comment, 3 string quoted by `quote`) and tells whether a
/// `return` occurs in code.
pub open spec fn scan_return(b: Seq<char>, i: int, state: u8, quote: char) -> bool
    decreases b.len() + 1 - i,
{
    if i < 0 || i >= b.len() {
        false
    } else {
        let ch = b[i];
        let nxt = next_char(b, i);
        if state == 0 {
            if ch == '\'' || ch == '"' || ch == '`' {
                scan_return(b, i + 1, 3, ch)
            } else if ch == '/' && nxt == '/' {
                scan_return(b, i + 2, 1, quote)
            } else if ch == '/' && nxt == '*' {
                scan_return(b, i + 2, 2, quote)
            } else if return_at(b, i) {
                true
            } else {
                scan_return(b, i + 1, 0, quote)
            }
        } else if state == 1 {
            if ch == '\n' { scan_return(b, i + 1, 0, quote) } else { scan_return(b, i + 1, 1, quote) }
        } else if state == 2 {
            if ch == '*' && nxt == '/' {
                scan_return(b, i + 2, 0, quote)
            } else {
                scan_return(b, i + 1, 2, quote)
            }
        } else {
            if ch == '\\' {
                scan_return(b, i + 2, state, quote)
            } else if ch == quote {
                scan_return(b, i + 1, 0, quote)
            } else {
                scan_return(b, i + 1, state, quote)
            }
        }
    }
}

/// `return` occurs in `src` outside strings and comments.
pub open spec fn has_return_spec(src: Seq<char>) -> bool {
    scan_return(src, 0, 0, ' ')
}

fn has_top_level_return(b: &[char]) -> (r: bool)
    ensures
        r == has_return_spec(b@),
{
    let n = b.len();
    let rw: [char; 6] = ['r', 'e', 't', 'u', 'r', 'n'];
    let rws = rw.as_slice();
    assert(rws@ == return_word());
    let mut i: usize = 0;
    let mut quote: char = ' ';
    let mut state: u8 = 0;
    while i < n
        invariant
            n == b@.len(),
            i <= n,
            state <= 3,
            rws@ == return_word(),
            has_return_spec(b@) == scan_return(b@, i as int, state, quote),
        decreases n - i,
    {
        let ch = b[i];
        let nxt = if i + 1 < n { b[i + 1] } else { '\0' };
        let mut two = false;
        if state == 0 {
            if ch == '\'' || ch == '"' || ch == '`' {
                state = 3;
                quote = ch;
            } else if ch == '/' && nxt == '/' {
                state = 1;
                two = true;
            } else if ch == '/' && nxt == '*' {
                state = 2;
                two = true;
            } else {
                let word = occurs_at_exec(b, rws, i);
                let before_ok = i == 0 || !(b[i - 1] == '_' || is_alphanumeric(b[i - 1]));
                let after_ok = n - i <= 6 || !(b[i + 6] == '_' || is_alphanumeric(b[i + 6]));
                if word && before_ok && after_ok {
                    assert(return_at(b@, i as int));
                    return true;
                }
                assert(!return_at(b@, i as int));
            }
        } else if state == 1 {
            if ch == '\n' {
                state = 0;
            }
        } else if state == 2 {
            if ch == '*' && nxt == '/' {
                state = 0;
                two = true;
            }
        } else {
            if ch == '\\' {
                two = true;
            } else if ch == quote {
                state = 0;
            }
        }
        if two && i + 1 < n {
            i = i + 2;
        } else if two {
            assert(!scan_return(b@, i as int + 2, state, quote));
            i = n;
        } else {
            i = i + 1;
        }
    }
    false
}

/// The expression evaluated for `expression`: one with a top-level `return`
/// that does not already start with `(` is wrapped into an arrow function
/// that is called at once.
pub open spec fn wrap_return_spec(e: Seq<char>) -> Seq<char> {
    if has_return_spec(e) && !has_prefix(trim_start_seq(e), seq!['(']) {
        "(()=>{"@ + e + "})()"@
    } else {
        e
    }
}

/// `eval 'const x = 1; return x'` works like `eval 'document.title'`: a
/// top-level `return` (outside strings/comments) gets IIFE-wrapped.
pub fn wrap_return(expression: &str) -> (r: String)
    ensures
        r@ == wrap_return_spec(expression@),
{
    let cs = chars_of(expression);
    let mut k: usize = 0;
    assert(cs@.skip(0) =~= cs@);
    while k < cs.len() && is_whitespace(cs[k])
        invariant
            k <= cs@.len(),
            lead_ws(cs@) == k + lead_ws(cs@.skip(k as int)),
        decreases cs@.len() - k,
    {
        assert(cs@.skip(k as int).drop_first() =~= cs@.skip(k as int + 1));
        assert(cs@.skip(k as int)[0] == cs@[k as int]);
        assert(lead_ws(cs@.skip(k as int)) == 1 + lead_ws(cs@.skip(k as int + 1)));
        k = k + 1;
    }
    proof {
        if k < cs@.len() {
            assert(cs@.skip(k as int)[0] == cs@[k as int]);
        }
        assert(lead_ws(cs@.skip(k as int)) == 0);
        assert(trim_start_seq(cs@) =~= cs@.skip(k as int));
    }
    let starts_paren = k < cs.len() && cs[k] == '(';
    proof {
        let t = cs@.skip(k as int);
        if starts_paren {
            assert(t.take(1) =~= seq!['(']);
        } else if k < cs@.len() {
            assert(t.take(1)[0] != '(');
        }
        assert(has_prefix(trim_start_seq(expression@), seq!['(']) == starts_paren);
    }
    if has_top_level_return(cs.as_slice()) && !starts_paren {
        let mut s = String::new();
        push_str(&mut s, "(()=>{");
        push_chars(&mut s, cs.as_slice());
        push_str(&mut s, "})()");
        s
    } else {
        string_of(cs.as_slice())
    }
}

/// Scanning `p + c` from inside `c` sees what scanning `c` alone sees, when
/// `p` ends in a character that cannot continue a word.
proof fn lemma_scan_suffix(p: Seq<char>, c: Seq<char>, j: int, st: u8, q: char)
    requires
        p.len() > 0,
        !is_word_char(p.last()),
        0 <= j,
    ensures
        scan_return(p + c, p.len() + j, st, q) == scan_return(c, j, st, q),
    decreases c.len() + 1 - j,
{
    let b = p + c;
    let i = p.len() + j;
    if j < c.len() {
        lemma_scan_suffix(p, c, j + 1, 0, q);
        lemma_scan_suffix(p, c, j + 1, 1, q);
        lemma_scan_suffix(p, c, j + 1, 2, q);
        lemma_scan_suffix(p, c, j + 1, st, q);
        lemma_scan_suffix(p, c, j + 1, 3, c[j]);
        lemma_scan_suffix(p, c, j + 2, 0, q);
        lemma_scan_suffix(p, c, j + 2, 1, q);
        lemma_scan_suffix(p, c, j + 2, 2, q);
        lemma_scan_suffix(p, c, j + 2, st, q);
        assert(b[i] == c[j]);
        assert(next_char(b, i) == next_char(c, j));
        if j + 6 <= c.len() {
            assert(b.subrange(i, i + 6) =~= c.subrange(j, j + 6));
            if j + 6 < c.len() {
                assert(b[i + 6] == c[j + 6]);
            }
        }
        if j > 0 {
            assert(b[i - 1] == c[j - 1]);
        } else {
            assert(b[i - 1] == p.last());
        }
        assert(return_at(b, i) == return_at(c, j));
        assert(p.len() + (j + 1) == i + 1);
        assert(p.len() + (j + 2) == i + 2);
    }
}

/// Inside a line comment the scan skips to just after the newline at `e`.
proof fn lemma_scan_line_comment(s: Seq<char>, a: int, e: int, q: char)
    requires
        0 <= a <= e < s.len(),
        s[e] == '\n',
        forall|k: int| a <= k < e ==> s[k] != '\n',
    ensures
        scan_return(s, a, 1, q) == scan_return(s, e + 1, 0, q),
    decreases e - a,
{
    if a < e {
        lemma_scan_line_comment(s, a + 1, e, q);
    }
}

/// A `//` comment ends at the first newline: a `return` on a later line is
/// found as if the comment were not there, and the expression is wrapped.
pub proof fn law_line_comment_ends_at_newline(x: Seq<char>, c: Seq<char>)
    requires
        forall|k: int| 0 <= k < x.len() ==> x[k] != '\n',
    ensures
        has_return_spec(seq!['/', '/'] + x + seq!['\n'] + c) == has_return_spec(c),
        has_return_spec(c) ==> wrap_return_spec(seq!['/', '/'] + x + seq!['\n'] + c)
            == "(()=>{"@ + (seq!['/', '/'] + x + seq!['\n'] + c) + "})()"@,
{
    let p = seq!['/', '/'] + x + seq!['\n'];
    let s = p + c;
    assert(seq!['/', '/'] + x + seq!['\n'] + c == s);
    assert(s[0] == '/' && s[1] == '/');
    let e: int = x.len() as int + 2;
    assert(s[e] == '\n');
    assert forall|k: int| 2 <= k < e implies s[k] != '\n' by {
        assert(s[k] == x[k - 2]);
    }
    lemma_scan_line_comment(s, 2, e, ' ');
    assert(p.last() == '\n');
    lemma_scan_suffix(p, c, 0, 0, ' ');
    assert(p.len() + 0 == e + 1);
    assert(!is_ws(s[0]));
    assert(lead_ws(s) == 0);
    assert(trim_start_seq(s) =~= s);
    assert(!has_prefix(trim_start_seq(s), seq!['(']));
}

/// Wrapping is done once: an expression that was wrapped starts with `(`
/// and is left alone by a second wrap.
pub proof fn law_wrap_return_idempotent(e: Seq<char>)
    ensures
        wrap_return_spec(wrap_return_spec(e)) == wrap_return_spec(e),
{
    let w = wrap_return_spec(e);
    if w != e {
        reveal_strlit("(()=>{");
        reveal_strlit("})()");
        assert(w[0] == '(');
        assert(!is_ws(w[0]));
        assert(lead_ws(w) == 0);
        assert(trim_start_seq(w) =~= w);
        assert(w.take(1) =~= seq!['(']);
        assert(has_prefix(trim_start_seq(w), seq!['(']));
    }
}

// ---------------------------------------------------------------------------
// Scripts with embedded strings
// ---------------------------------------------------------------------------

/// The inspect script for a JSON-quoted query `q` and the two limits.
pub open spec fn inspect_js_spec(q: Seq<char>, limit: nat, text_limit: nat) -> Seq<char> {
    INSPECT_JS_0@ + q + INSPECT_JS_1@ + dec_nat(limit) + INSPECT_JS_2@ + dec_nat(text_limit)
        + INSPECT_JS_3@ + q + INSPECT_JS_4@
}

/// The page-inspection script for the JSON-quoted query `quoted` and the
/// two limits.
pub fn inspect_script(quoted: &str, limit: usize, text_limit: usize) -> (r: String)
    ensures
        r@ == inspect_js_spec(quoted@, limit as nat, text_limit as nat),
{
    let mut s = String::new();
    push_str(&mut s, INSPECT_JS_0);
    push_str(&mut s, quoted);
    push_str(&mut s, INSPECT_JS_1);
    push_u128(&mut s, limit as u128);
    push_str(&mut s, INSPECT_JS_2);
    push_u128(&mut s, text_limit as u128);
    push_str(&mut s, INSPECT_JS_3);
    push_str(&mut s, quoted);
    push_str(&mut s, INSPECT_JS_4);
    s
}

/// The page-inspection script: text, headings and actionable elements,
/// filtered by `query` when one is given.
pub fn inspect_js(query: Option<&str>, limit: usize, text_limit: usize) -> (r: Result<String, ScriptError>)
    ensures
        match r {
            Ok(s) => s@ == inspect_js_spec(
                json_string_literal(match query { Some(q) => q@, None => ""@ }),
                limit as nat,
                text_limit as nat,
            ),
            Err(_) => false,
        },
{
    let q = match query {
        Some(q) => q,
        None => "",
    };
    let quoted = match json_quote(q) {
        Ok(s) => s,
        Err(_) => return Err(ScriptError::Encode),
    };
    Ok(inspect_script(quoted.as_str(), limit, text_limit))
}

/// `(ACTION_JS).method(args)`.
pub open spec fn action_call_spec(method: Seq<char>, args: Seq<char>) -> Seq<char> {
    "("@ + ACTION_JS@ + ")."@ + method + "("@ + args + ")"@
}

/// The call of the action helper's `method` on the argument list `args`.
pub fn action_script(method: &str, args: &str) -> (r: String)
    ensures
        r@ == action_call_spec(method@, args@),
{
    let mut s = String::new();
    push_str(&mut s, "(");
    push_str(&mut s, ACTION_JS);
    push_str(&mut s, ").");
    push_str(&mut s, method);
    push_str(&mut s, "(");
    push_str(&mut s, args);
    push_str(&mut s, ")");
    s
}

/// The script that scrolls `target` into view and returns its center point.
pub fn point_js(target: &str) -> (r: Result<String, ScriptError>)
    ensures
        r matches Ok(s) && s@ == action_call_spec("point"@, json_string_literal(target@)),
{
    match json_quote(target) {
        Ok(q) => Ok(action_script("point", q.as_str())),
        Err(_) => Err(ScriptError::Encode),
    }
}

/// The script that fills `target` with `text`.
pub fn fill_js(target: &str, text: &str) -> (r: Result<String, ScriptError>)
    ensures
        r matches Ok(s) && s@ == action_call_spec(
            "fill"@,
            json_string_literal(target@) + ","@ + json_string_literal(text@),
        ),
{
    two_arg_call("fill", target, text)
}

/// The script that selects `value` in the `target` select element.
pub fn select_js(target: &str, value: &str) -> (r: Result<String, ScriptError>)
    ensures
        r matches Ok(s) && s@ == action_call_spec(
            "select"@,
            json_string_literal(target@) + ","@ + json_string_literal(value@),
        ),
{
    two_arg_call("select", target, value)
}

fn two_arg_call(method: &str, a: &str, b: &str) -> (r: Result<String, ScriptError>)
    ensures
        r matches Ok(s) && s@ == action_call_spec(
            method@,
            json_string_literal(a@) + ","@ + json_string_literal(b@),
        ),
{
    let qa = match json_quote(a) {
        Ok(q) => q,
        Err(_) => return Err(ScriptError::Encode),
    };
    let qb = match json_quote(b) {
        Ok(q) => q,
        Err(_) => return Err(ScriptError::Encode),
    };
    let mut args = String::new();
    push_str(&mut args, qa.as_str());
    push_str(&mut args, ",");
    push_str(&mut args, qb.as_str());
    Ok(action_script(method, args.as_str()))
}

/// The text of the element-presence check for `selector`.
pub open spec fn wait_element_spec(q: Seq<char>, visible: bool) -> Seq<char> {
    if visible {
        VISIBLE_CHECK_0@ + q + VISIBLE_CHECK_1@
    } else {
        "!!document.querySelector("@ + q + ")"@
    }
}

/// Start of the visibility check script.
pub const VISIBLE_CHECK_0: &'static str = "(()=>{const e=document.querySelector(";
/// End of the visibility check script.
pub const VISIBLE_CHECK_1: &'static str = r#");if(!e)return false;if(typeof e.checkVisibility==='function')return e.checkVisibility({checkOpacity:true,checkVisibilityCSS:true});const s=getComputedStyle(e),r=e.getBoundingClientRect();return r.width>0&&r.height>0&&s.display!=='none'&&s.visibility!=='hidden'&&s.opacity!=='0'})()"#;

/// The element-presence check for the JSON-quoted selector `quoted`.
pub fn element_check_script(quoted: &str, visible: bool) -> (r: String)
    ensures
        r@ == wait_element_spec(quoted@, visible),
{
    let mut s = String::new();
    if visible {
        push_str(&mut s, VISIBLE_CHECK_0);
        push_str(&mut s, quoted);
        push_str(&mut s, VISIBLE_CHECK_1);
    } else {
        push_str(&mut s, "!!document.querySelector(");
        push_str(&mut s, quoted);
        push_str(&mut s, ")");
    }
    s
}

/// The script that tells whether `selector` matches an element (a visible
/// one, when `visible`).
pub fn wait_element_js(selector: &str, visible: bool) -> (r: Result<String, ScriptError>)
    ensures
        r matches Ok(s) && s@ == wait_element_spec(json_string_literal(selector@), visible),
{
    let q = match json_quote(selector) {
        Ok(q) => q,
        Err(_) => return Err(ScriptError::Encode),
    };
    Ok(element_check_script(q.as_str(), visible))
}

/// `window.scrollBy(dx,dy); true`.
pub fn scroll_by_js(dx: i64, dy: i64) -> (r: String)
    ensures
        r@ == "window.scrollBy("@ + dec_int(dx as int) + ","@ + dec_int(dy as int) + "); true"@,
{
    let mut s = String::new();
    push_str(&mut s, "window.scrollBy(");
    push_i64(&mut s, dx);
    push_str(&mut s, ",");
    push_i64(&mut s, dy);
    push_str(&mut s, "); true");
    s
}

} // verus!

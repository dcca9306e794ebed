//! The mind inside the diary: what is sent to an OpenAI vision model about
//! the vanished handwriting, the transcript that lets the diary remember,
//! and the defensive reading of the model's answer.
//!
//! The HTTP exchange and the strict JSON decoding stay with the caller; the
//! library prepares the request's parts and salvages the reply.

use vstd::prelude::*;
use crate::text::{
    find_exec, find_from, lemma_find_from_found, from_chars, matches_at_exec, skip_ws,
    strip_prefix, sub_vec, to_chars, trim, trim_end_matches, trim_end_matches_exec, trim_start,
    trim_vec, unsigned_body,
};
use vstd::string::StringExecFns;

verus! {

#[derive(Debug, Clone)]
pub struct Reply {
    pub transcription: String,
    pub reply: String,
}

/// The content of a reply.
pub struct ReplyModel {
    pub transcription: Seq<char>,
    pub reply: Seq<char>,
}

impl View for Reply {
    type V = ReplyModel;

    open spec fn view(&self) -> ReplyModel {
        ReplyModel { transcription: self.transcription@, reply: self.reply@ }
    }
}

/// The value of a hexadecimal digit, or -1.
pub open spec fn hex_val(c: char) -> int {
    if '0' <= c && c <= '9' {
        (c as u32) - 48
    } else if 'a' <= c && c <= 'f' {
        (c as u32) - 87
    } else if 'A' <= c && c <= 'F' {
        (c as u32) - 55
    } else {
        -1
    }
}

pub open spec fn all_hex(s: Seq<char>) -> bool {
    forall|i: int| 0 <= i < s.len() ==> hex_val(#[trigger] s[i]) >= 0
}

pub open spec fn hex_value(s: Seq<char>) -> nat
    decreases s.len(),
{
    if s.len() == 0 {
        0
    } else {
        hex_value(s.drop_last()) * 16 + hex_val(s.last()) as nat
    }
}

/// The number `u32::from_str_radix(s, 16)` reads from at most four
/// characters: an optional `+`, then one or more hexadecimal digits.
pub open spec fn parse_hex(s: Seq<char>) -> Option<nat> {
    let b = unsigned_body(s);
    if b.len() > 0 && all_hex(b) {
        Some(hex_value(b))
    } else {
        None
    }
}

/// Whether `v` is a Unicode scalar value, the codes `char::from_u32` accepts.
pub open spec fn is_scalar(v: nat) -> bool {
    v <= 0x10FFFF && !(0xD800 <= v && v <= 0xDFFF)
}

/// What a `\u` escape with the given (up to four) characters writes: the
/// character it names, or nothing when it names none.
pub open spec fn hex_char(h: Seq<char>) -> Seq<char> {
    match parse_hex(h) {
        Some(v) => if is_scalar(v) {
            seq![(v as u32) as char]
        } else {
            Seq::empty()
        },
        None => Seq::empty(),
    }
}

/// How many characters a `\u` escape reads: four, or what is left.
pub open spec fn hex_len(left: int) -> int {
    if left < 4 {
        left
    } else {
        4
    }
}

/// The text of a JSON string body up to its closing quote, tolerating a
/// missing one: escapes are unescaped, and `\n`, `\t`, `\r` become spaces
/// so the quill writes a single flowing paragraph.
pub open spec fn unescape(r: Seq<char>) -> Seq<char>
    decreases r.len(),
{
    if r.len() == 0 || r[0] == '"' {
        Seq::empty()
    } else if r[0] == '\\' {
        if r.len() == 1 {
            Seq::empty()
        } else if r[1] == 'n' || r[1] == 't' || r[1] == 'r' {
            seq![' '] + unescape(r.skip(2))
        } else if r[1] == 'u' {
            let h = hex_len(r.len() - 2);
            hex_char(r.subrange(2, 2 + h)) + unescape(r.skip(2 + h))
        } else {
            seq![r[1]] + unescape(r.skip(2))
        }
    } else {
        seq![r[0]] + unescape(r.skip(1))
    }
}

/// The string value of `key` in JSON-ish text: after the first `"key"`, the
/// first `:`, optional white space and an opening quote, the unescaped body,
/// trimmed; absent when any of these is missing or the value is blank.
pub open spec fn json_string_value(s: Seq<char>, key: Seq<char>) -> Option<Seq<char>> {
    let pat = seq!['"'] + key + seq!['"'];
    match find_from(s, pat, 0) {
        None => None,
        Some(k) => match find_from(s, seq![':'], k + pat.len()) {
            None => None,
            Some(c) => {
                let r = trim_start(s.skip(c + 1));
                if r.len() > 0 && r[0] == '"' {
                    let out = trim(unescape(r.drop_first()));
                    if out.len() > 0 {
                        Some(out)
                    } else {
                        None
                    }
                } else {
                    None
                }
            },
        },
    }
}

/// `char::from_u32`.
#[verifier::external_body]
fn char_from_u32(v: u32) -> (r: Option<char>)
    ensures
        r == (if is_scalar(v as nat) {
            Some(v as char)
        } else {
            None::<char>
        }),
{
    char::from_u32(v)
}

/// Reads a `\u` escape's characters `v[from..to]` (at most four).
fn hex_escape(v: &[char], from: usize, to: usize) -> (r: Option<char>)
    requires
        from <= to <= v@.len(),
        to - from <= 4,
    ensures
        match r {
            Some(c) => hex_char(v@.subrange(from as int, to as int)) == seq![c],
            None => hex_char(v@.subrange(from as int, to as int)) == Seq::<char>::empty(),
        },
{
    let ghost h = v@.subrange(from as int, to as int);
    let ghost b = unsigned_body(h);
    let start: usize = if from < to && v[from] == '+' {
        from + 1
    } else {
        from
    };
    assert(b =~= v@.subrange(start as int, to as int));
    if start == to {
        return None;
    }
    let mut acc: u32 = 0;
    let mut i: usize = start;
    assert(b.take(0) =~= Seq::<char>::empty());
    while i < to
        invariant
            start <= i <= to,
            to - start <= 4,
            to <= v@.len(),
            b == v@.subrange(start as int, to as int),
            b == unsigned_body(v@.subrange(from as int, to as int)),
            acc as nat == hex_value(b.take(i - start)),
            acc < pow16(i - start),
            all_hex(b.take(i - start)),
        decreases to - i,
    {
        let c = v[i];
        let d: u32 = if '0' <= c && c <= '9' {
            c as u32 - 48
        } else if 'a' <= c && c <= 'f' {
            c as u32 - 87
        } else if 'A' <= c && c <= 'F' {
            c as u32 - 55
        } else {
            assert(b[i - start] == c);
            assert(!all_hex(b));
            return None;
        };
        let ghost k = i - start;
        assert(b.take(k + 1).drop_last() =~= b.take(k));
        assert(b.take(k + 1).last() == c);
        assert(all_hex(b.take(k + 1))) by {
            assert forall|q: int| 0 <= q < b.take(k + 1).len() implies hex_val(
                #[trigger] b.take(k + 1)[q],
            ) >= 0 by {
                if q < k {
                    assert(b.take(k + 1)[q] == b.take(k)[q]);
                }
            }
        }
        assert(acc * 16 + d < pow16(k + 1)) by (nonlinear_arith)
            requires
                acc < pow16(k),
                d < 16,
                pow16(k + 1) == pow16(k) * 16,
        ;
        assert(pow16(k + 1) <= 65536) by {
            reveal_with_fuel(pow16, 5);
            assert(pow16(1) == 16);
            assert(pow16(2) == 256);
            assert(pow16(3) == 4096);
            assert(pow16(4) == 65536);
        }
        acc = acc * 16 + d;
        i = i + 1;
    }
    assert(b.take(to - start) =~= b);
    char_from_u32(acc)
}

/// Sixteen to the power `k`.
pub open spec fn pow16(k: int) -> nat
    decreases k,
{
    if k <= 0 {
        1
    } else {
        pow16(k - 1) * 16
    }
}

/// Unescapes the string body starting at `v[from]`.
fn unescape_exec(v: &[char], from: usize) -> (out: Vec<char>)
    requires
        from <= v@.len(),
    ensures
        out@ == unescape(v@.skip(from as int)),
{
    let n = v.len();
    let mut out: Vec<char> = Vec::new();
    let mut q: usize = from;
    while q < n
        invariant
            from <= q <= n,
            n == v@.len(),
            unescape(v@.skip(from as int)) == out@ + unescape(v@.skip(q as int)),
        decreases n - q,
    {
        let ghost r = v@.skip(q as int);
        let ghost o = out@;
        let c = v[q];
        assert(r[0] == c);
        if c == '"' {
            assert(out@ + unescape(r) =~= out@);
            return out;
        } else if c == '\\' {
            if q + 1 >= n {
                assert(out@ + unescape(r) =~= out@);
                return out;
            }
            let e = v[q + 1];
            assert(r[1] == e);
            if e == 'n' || e == 't' || e == 'r' {
                out.push(' ');
                assert(r.skip(2) =~= v@.skip(q + 2));
                assert(out@ + unescape(v@.skip(q + 2)) =~= o + unescape(r));
                q = q + 2;
            } else if e == 'u' {
                let h_end: usize = if n - (q + 2) < 4 {
                    n
                } else {
                    q + 6
                };
                assert(h_end - (q + 2) == hex_len(r.len() - 2));
                assert(r.subrange(2, 2 + hex_len(r.len() - 2)) =~= v@.subrange(q + 2, h_end as int));
                assert(r.skip(2 + hex_len(r.len() - 2)) =~= v@.skip(h_end as int));
                match hex_escape(v, q + 2, h_end) {
                    Some(ch) => out.push(ch),
                    None => {},
                }
                assert(out@ + unescape(v@.skip(h_end as int)) =~= o + unescape(r));
                q = h_end;
            } else {
                out.push(e);
                assert(r.skip(2) =~= v@.skip(q + 2));
                assert(out@ + unescape(v@.skip(q + 2)) =~= o + unescape(r));
                q = q + 2;
            }
        } else {
            out.push(c);
            assert(r.skip(1) =~= v@.skip(q + 1));
            assert(out@ + unescape(v@.skip(q + 1)) =~= o + unescape(r));
            q = q + 1;
        }
    }
    assert(v@.skip(n as int) =~= Seq::<char>::empty());
    assert(out@ + unescape(v@.skip(n as int)) =~= out@);
    out
}

/// The string value of `key` in the characters `v`, as `json_string_value`.
fn json_string_value_exec(v: &[char], key: &[char]) -> (r: Option<Vec<char>>)
    requires
        key@.len() + 2 <= usize::MAX,
    ensures
        match r {
            Some(o) => json_string_value(v@, key@) == Some(o@),
            None => json_string_value(v@, key@) is None,
        },
{
    let n = v.len();
    let mut pat: Vec<char> = Vec::new();
    pat.push('"');
    let mut i: usize = 0;
    while i < key.len()
        invariant
            i <= key@.len(),
            pat@ == seq!['"'] + key@.take(i as int),
        decreases key@.len() - i,
    {
        pat.push(key[i]);
        assert(key@.take(i + 1) =~= key@.take(i as int).push(key@[i as int]));
        assert(pat@ =~= seq!['"'] + key@.take(i + 1));
        i = i + 1;
    }
    pat.push('"');
    assert(key@.take(key@.len() as int) =~= key@);
    assert(pat@ =~= seq!['"'] + key@ + seq!['"']);
    let k = match find_exec(v, &pat, 0) {
        Some(k) => k,
        None => {
            return None;
        },
    };
    let mut colon: Vec<char> = Vec::new();
    colon.push(':');
    assert(colon@ =~= seq![':']);
    proof {
        lemma_find_from_found(v@, pat@, 0, k as int);
    }
    assert(k + pat@.len() <= n);
    let c = match find_exec(v, &colon, k + pat.len()) {
        Some(c) => c,
        None => {
            return None;
        },
    };
    proof {
        lemma_find_from_found(v@, colon@, k + pat@.len(), c as int);
    }
    assert(c + 1 <= n);
    let j = skip_ws(v, c + 1);
    let ghost r = trim_start(v@.skip(c + 1));
    if j < v.len() && v[j] == '"' {
        assert(r[0] == v@[j as int]);
        assert(r.drop_first() =~= v@.skip(j + 1));
        let body = unescape_exec(v, j + 1);
        let out = trim_vec(&body);
        if out.len() > 0 {
            Some(out)
        } else {
            None
        }
    } else {
        if j < v.len() {
            assert(r[0] == v@[j as int]);
        }
        None
    }
}

/// Pulls the string value of `key` out of JSON-ish text, tolerating a
/// missing closing quote (truncation). JSON escapes are unescaped; `\n`,
/// `\t` and `\r` become spaces.
pub fn extract_json_string(s: &str, key: &str) -> (r: Option<String>)
    requires
        key@.len() + 2 <= usize::MAX,
    ensures
        match r {
            Some(o) => json_string_value(s@, key@) == Some(o@),
            None => json_string_value(s@, key@) is None,
        },
{
    let v = to_chars(s);
    let k = to_chars(key);
    match json_string_value_exec(&v, &k) {
        Some(o) => Some(from_chars(&o)),
        None => None,
    }
}

} // verus!

verus! {

/// A Markdown code fence.
pub open spec fn fence() -> Seq<char> {
    seq!['`', '`', '`']
}

/// A Markdown code fence that announces JSON.
pub open spec fn json_fence() -> Seq<char> {
    seq!['`', '`', '`', 'j', 's', 'o', 'n']
}

/// The model's answer, trimmed and with a surrounding Markdown code fence
/// (with or without the `json` tag) removed.
pub open spec fn unfence(content: Seq<char>) -> Seq<char> {
    let t = trim(content);
    match strip_prefix(t, json_fence()) {
        Some(r) => trim(trim_end_matches(r, fence())),
        None => match strip_prefix(t, fence()) {
            Some(r) => trim(trim_end_matches(r, fence())),
            None => t,
        },
    }
}

/// JSON punctuation shaved off a bare answer.
pub open spec fn is_json_punct(c: char) -> bool {
    c == '{' || c == '}' || c == '"' || c == '`'
}

pub open spec fn shave_start(s: Seq<char>) -> Seq<char>
    decreases s.len(),
{
    if s.len() > 0 && is_json_punct(s[0]) {
        shave_start(s.drop_first())
    } else {
        s
    }
}

pub open spec fn shave_end(s: Seq<char>) -> Seq<char>
    decreases s.len(),
{
    if s.len() > 0 && is_json_punct(s.last()) {
        shave_end(s.drop_last())
    } else {
        s
    }
}

/// The answer with JSON punctuation shaved off both ends.
pub open spec fn shave(s: Seq<char>) -> Seq<char> {
    shave_end(shave_start(s))
}

/// The reply salvaged from an answer that is not well-formed JSON: the
/// `"reply"` string if one can be found (with the `"transcription"` string,
/// or nothing), else the whole answer with JSON punctuation shaved off.
pub open spec fn salvage(u: Seq<char>) -> ReplyModel {
    match json_string_value(u, "reply"@) {
        Some(reply) => ReplyModel {
            transcription: match json_string_value(u, "transcription"@) {
                Some(t) => t,
                None => Seq::empty(),
            },
            reply,
        },
        None => ReplyModel { transcription: Seq::empty(), reply: trim(shave(u)) },
    }
}

fn fence_chars(with_json: bool) -> (v: Vec<char>)
    ensures
        v@ == (if with_json {
            json_fence()
        } else {
            fence()
        }),
{
    let mut v: Vec<char> = Vec::new();
    v.push('`');
    v.push('`');
    v.push('`');
    if with_json {
        v.push('j');
        v.push('s');
        v.push('o');
        v.push('n');
    }
    assert(v@ =~= (if with_json {
        json_fence()
    } else {
        fence()
    }));
    v
}

fn unfence_chars(content: &str) -> (u: Vec<char>)
    ensures
        u@ == unfence(content@),
{
    let all = to_chars(content);
    let t = trim_vec(&all);
    let jf = fence_chars(true);
    let f = fence_chars(false);
    let start: usize = if matches_at_exec(&t, 0, &jf) {
        7
    } else if matches_at_exec(&t, 0, &f) {
        3
    } else {
        return t;
    };
    let end = trim_end_matches_exec(&t, start, t.len(), &f);
    assert(t@.subrange(start as int, t@.len() as int) =~= t@.skip(start as int));
    let body = sub_vec(&t, start, end);
    trim_vec(&body)
}

/// The model's answer without surrounding white space or code fence: the
/// text a strict JSON reading is tried on.
pub fn unfence_answer(content: &str) -> (u: String)
    ensures
        u@ == unfence(content@),
{
    let v = unfence_chars(content);
    from_chars(&v)
}

fn shave_exec(v: &[char]) -> (r: Vec<char>)
    ensures
        r@ == shave(v@),
{
    let n = v.len();
    let mut i: usize = 0;
    assert(v@.skip(0) =~= v@);
    while i < n && (v[i] == '{' || v[i] == '}' || v[i] == '"' || v[i] == '`')
        invariant
            i <= n,
            n == v@.len(),
            shave_start(v@) == shave_start(v@.skip(i as int)),
        decreases n - i,
    {
        assert(v@.skip(i as int).drop_first() =~= v@.skip(i + 1));
        i = i + 1;
    }
    let ghost t = v@.skip(i as int);
    assert(t =~= v@.subrange(i as int, n as int));
    let mut j: usize = n;
    assert(t.take(t.len() as int) =~= t);
    while j > i && (v[j - 1] == '{' || v[j - 1] == '}' || v[j - 1] == '"' || v[j - 1] == '`')
        invariant
            i <= j <= n,
            n == v@.len(),
            t == v@.subrange(i as int, n as int),
            shave_end(t) == shave_end(t.take(j - i)),
        decreases j,
    {
        assert(t.take(j - i).drop_last() =~= t.take(j - i - 1));
        j = j - 1;
    }
    assert(t.take(j - i) =~= v@.subrange(i as int, j as int));
    sub_vec(v, i, j)
}

/// Parses the model's answer defensively. `strict` is what a strict JSON
/// reading of `unfence_answer(content)` into a reply gave, if it succeeded;
/// that reading wins. Otherwise the `"reply"` string is salvaged by hand
/// (which also recovers from JSON truncated mid-string), and only as a last
/// resort the whole answer is used with JSON punctuation shaved off.
pub fn extract_reply(content: &str, strict: Option<Reply>) -> (r: Reply)
    ensures
        r@ == (match strict {
            Some(s) => s@,
            None => salvage(unfence(content@)),
        }),
{
    if let Some(s) = strict {
        return s;
    }
    let u = unfence_chars(content);
    let reply_key = to_chars("reply");
    let transcription_key = to_chars("transcription");
    proof {
        reveal_strlit("reply");
        reveal_strlit("transcription");
    }
    match json_string_value_exec(&u, &reply_key) {
        Some(reply) => {
            let transcription = match json_string_value_exec(&u, &transcription_key) {
                Some(t) => from_chars(&t),
                None => String::new(),
            };
            Reply { transcription, reply: from_chars(&reply) }
        },
        None => {
            let shaved = shave_exec(&u);
            let bare = trim_vec(&shaved);
            Reply { transcription: String::new(), reply: from_chars(&bare) }
        },
    }
}

} // verus!

verus! {

/// The base64 digit of a 6-bit value, standard alphabet.
pub open spec fn b64_digit(v: int) -> char {
    if v < 26 {
        (65 + v) as char
    } else if v < 52 {
        (97 + v - 26) as char
    } else if v < 62 {
        (48 + v - 52) as char
    } else if v == 62 {
        '+'
    } else {
        '/'
    }
}

/// Standard base64 (RFC 4648, `+` and `/`, padded with `=`).
pub open spec fn base64(b: Seq<u8>) -> Seq<char>
    decreases b.len(),
{
    if b.len() == 0 {
        Seq::empty()
    } else if b.len() == 1 {
        seq![b64_digit((b[0] / 4) as int), b64_digit((b[0] % 4) * 16), '=', '=']
    } else if b.len() == 2 {
        seq![
            b64_digit((b[0] / 4) as int),
            b64_digit((b[0] % 4) * 16 + b[1] / 16),
            b64_digit((b[1] % 16) * 4),
            '=',
        ]
    } else {
        seq![
            b64_digit((b[0] / 4) as int),
            b64_digit((b[0] % 4) * 16 + b[1] / 16),
            b64_digit((b[1] % 16) * 4 + b[2] / 64),
            b64_digit((b[2] % 64) as int),
        ] + base64(b.skip(3))
    }
}

/// `base64::engine::general_purpose::STANDARD.encode`: the standard
/// alphabet with `=` padding, as the crate documents it. The crate panics
/// when the encoded length overflows `usize`, which the bound rules out.
#[verifier::external_body]
fn base64_encode(bytes: &[u8]) -> (s: String)
    requires
        bytes@.len() / 3 * 4 + 4 <= usize::MAX,
    ensures
        s@ == base64(bytes@),
{
    base64::Engine::encode(&base64::engine::general_purpose::STANDARD, bytes)
}

/// The reply token budget asked of the model.
pub const MAX_TOKENS: u32 = 700;

/// Who speaks a message.
#[derive(Debug, Clone, Copy, PartialEq, Eq, Structural)]
pub enum Role {
    System,
    User,
    Assistant,
}

/// What a message says: plain text, or the page image with its caption.
#[derive(Debug, Clone)]
pub enum Content {
    Text(String),
    Page { text: String, image_url: String },
}

#[derive(Debug, Clone)]
pub struct Message {
    pub role: Role,
    pub content: Content,
}

pub struct MessageModel {
    pub role: Role,
    pub text: Seq<char>,
    pub image_url: Option<Seq<char>>,
}

impl View for Message {
    type V = MessageModel;

    open spec fn view(&self) -> MessageModel {
        match self.content {
            Content::Text(t) => MessageModel { role: self.role, text: t@, image_url: None },
            Content::Page { text, image_url } => MessageModel {
                role: self.role,
                text: text@,
                image_url: Some(image_url@),
            },
        }
    }
}

pub open spec fn text_message(role: Role, text: Seq<char>) -> MessageModel {
    MessageModel { role, text, image_url: None }
}

/// The remembered exchanges as chat turns: the writer's words as the
/// user's, the diary's as the assistant's.
pub open spec fn transcript_messages(h: Seq<(Seq<char>, Seq<char>)>) -> Seq<MessageModel>
    decreases h.len(),
{
    if h.len() == 0 {
        Seq::empty()
    } else {
        transcript_messages(h.drop_last()) + seq![
            text_message(Role::User, h.last().0),
            text_message(Role::Assistant, h.last().1),
        ]
    }
}

/// The caption sent with the page image.
pub open spec fn page_caption() -> Seq<char> {
    "New words have been written on the page. The image shows exactly what the writer wrote by hand."@
}

/// The page image as a data URI.
pub open spec fn page_uri(png: Seq<u8>) -> Seq<char> {
    "data:image/png;base64,"@ + base64(png)
}

/// The whole request conversation: the persona, the transcript, then the
/// new page.
pub open spec fn conversation(system: Seq<char>, h: Seq<(Seq<char>, Seq<char>)>, png: Seq<u8>) -> Seq<
    MessageModel,
> {
    seq![text_message(Role::System, system)] + transcript_messages(h) + seq![
        MessageModel { role: Role::User, text: page_caption(), image_url: Some(page_uri(png)) },
    ]
}

#[derive(Clone)]
pub struct Engine {
    pub model: String,
    pub base_url: String,
    pub api_key: String,
    pub system_prompt: String,
    /// (writer's words, diary's words), oldest first.
    pub history: Vec<(String, String)>,
}

pub open spec fn pair_view(p: (String, String)) -> (Seq<char>, Seq<char>) {
    (p.0@, p.1@)
}

impl Engine {
    /// The exchanges remembered so far, oldest first.
    pub open spec fn transcript(self) -> Seq<(Seq<char>, Seq<char>)> {
        self.history@.map_values(|p: (String, String)| pair_view(p))
    }

    pub fn new(model: String, base_url: String, api_key: String, system_prompt: String) -> (e: Self)
        ensures
            e.model == model,
            e.base_url == base_url,
            e.api_key == api_key,
            e.system_prompt == system_prompt,
            e.transcript() == Seq::<(Seq<char>, Seq<char>)>::empty(),
    {
        let e = Engine { model, base_url, api_key, system_prompt, history: Vec::new() };
        assert(e.transcript() =~= Seq::<(Seq<char>, Seq<char>)>::empty());
        e
    }

    /// Adds one exchange to the transcript.
    pub fn remember(&mut self, wrote: String, replied: String)
        ensures
            final(self).transcript() == old(self).transcript().push((wrote@, replied@)),
            final(self).model == old(self).model,
            final(self).base_url == old(self).base_url,
            final(self).api_key == old(self).api_key,
            final(self).system_prompt == old(self).system_prompt,
    {
        self.history.push((wrote, replied));
        assert(self.transcript() =~= old(self).transcript().push((wrote@, replied@)));
    }

    /// The chat completions endpoint under the base URL.
    pub fn chat_url(&self) -> (u: String)
        ensures
            u@ == trim_end_matches(self.base_url@, seq!['/']) + "/chat/completions"@,
    {
        let v = to_chars(self.base_url.as_str());
        let mut slash: Vec<char> = Vec::new();
        slash.push('/');
        assert(slash@ =~= seq!['/']);
        let end = trim_end_matches_exec(&v, 0, v.len(), &slash);
        assert(v@.subrange(0, v@.len() as int) =~= v@);
        let kept = sub_vec(&v, 0, end);
        let mut u = from_chars(&kept);
        u.append("/chat/completions");
        u
    }

    /// The value of the `Authorization` header.
    pub fn authorization(&self) -> (h: String)
        ensures
            h@ == "Bearer "@ + self.api_key@,
    {
        let mut h = String::new();
        h.append("Bearer ");
        h.append(self.api_key.as_str());
        h
    }

    /// The messages that ask the model about the page image `page_png`.
    pub fn messages(&self, page_png: &[u8]) -> (msgs: Vec<Message>)
        requires
            page_png@.len() / 3 * 4 + 4 <= usize::MAX,
        ensures
            msgs@.map_values(|m: Message| m@) == conversation(
                self.system_prompt@,
                self.transcript(),
                page_png@,
            ),
    {
        let mut msgs: Vec<Message> = Vec::new();
        msgs.push(Message { role: Role::System, content: Content::Text(self.system_prompt.clone()) });
        let ghost head = seq![text_message(Role::System, self.system_prompt@)];
        assert(msgs@.map_values(|m: Message| m@) =~= head);
        let n = self.history.len();
        let mut i: usize = 0;
        assert(self.transcript().take(0) =~= Seq::<(Seq<char>, Seq<char>)>::empty());
        while i < n
            invariant
                i <= n,
                n == self.history@.len(),
                self.transcript().len() == n,
                msgs@.map_values(|m: Message| m@) == head + transcript_messages(
                    self.transcript().take(i as int),
                ),
            decreases n - i,
        {
            let ghost before = msgs@.map_values(|m: Message| m@);
            let wrote = self.history[i].0.clone();
            let replied = self.history[i].1.clone();
            msgs.push(Message { role: Role::User, content: Content::Text(wrote) });
            msgs.push(Message { role: Role::Assistant, content: Content::Text(replied) });
            proof {
                let t = self.transcript();
                assert(t[i as int] == pair_view(self.history@[i as int]));
                assert(t.take(i + 1).drop_last() =~= t.take(i as int));
                assert(t.take(i + 1).last() == t[i as int]);
                assert(msgs@.map_values(|m: Message| m@) =~= before + seq![
                    text_message(Role::User, t[i as int].0),
                    text_message(Role::Assistant, t[i as int].1),
                ]);
            }
            i = i + 1;
        }
        let mut uri = String::new();
        uri.append("data:image/png;base64,");
        let encoded = base64_encode(page_png);
        uri.append(encoded.as_str());
        let mut caption = String::new();
        caption.append(
            "New words have been written on the page. The image shows exactly what the writer wrote by hand.",
        );
        let ghost before = msgs@.map_values(|m: Message| m@);
        msgs.push(Message { role: Role::User, content: Content::Page { text: caption, image_url: uri } });
        assert(self.transcript().take(n as int) =~= self.transcript());
        assert(msgs@.map_values(|m: Message| m@) =~= before.push(
            MessageModel { role: Role::User, text: page_caption(), image_url: Some(page_uri(page_png@)) },
        ));
        msgs
    }

    /// Remembers an answered exchange: what the writer wrote (or
    /// "(illegible)" when the model could not read it) and the reply.
    pub fn remember_reply(&mut self, reply: &Reply)
        ensures
            final(self).transcript() == old(self).transcript().push(
                (
                    if reply.transcription@.len() == 0 {
                        "(illegible)"@
                    } else {
                        reply.transcription@
                    },
                    reply.reply@,
                ),
            ),
            final(self).model == old(self).model,
            final(self).base_url == old(self).base_url,
            final(self).api_key == old(self).api_key,
            final(self).system_prompt == old(self).system_prompt,
    {
        let wrote = if reply.transcription.as_str().is_empty() {
            let mut w = String::new();
            w.append("(illegible)");
            w
        } else {
            reply.transcription.clone()
        };
        self.remember(wrote, reply.reply.clone());
    }
}

/// What the diary writes when the mind could not answer.
pub const OFFLINE_REPLY: &'static str = "I need internet to help you further.";

/// The reply to write, and whether the exchange joins the transcript: the
/// model's reply when it answered, else the offline line, not remembered.
pub fn reply_or_offline(answer: Option<Reply>) -> (r: (Reply, bool))
    ensures
        match answer {
            Some(a) => r.0@ == a@ && r.1,
            None => r.0.transcription@.len() == 0 && r.0.reply@ == OFFLINE_REPLY@ && !r.1,
        },
{
    match answer {
        Some(a) => (a, true),
        None => {
            let mut reply = String::new();
            reply.append(OFFLINE_REPLY);
            (Reply { transcription: String::new(), reply }, false)
        },
    }
}

/// The text of the model's answer: its content when it has one, else its
/// refusal, which is then the reply; none when the message has neither.
pub fn answer_text(content: Option<String>, refusal: Option<String>) -> (r: Option<String>)
    ensures
        match content {
            Some(c) => r matches Some(t) && t@ == c@,
            None => match refusal {
                Some(f) => r matches Some(t) && t@ == f@,
                None => r is None,
            },
        },
{
    match content {
        Some(c) => Some(c),
        None => refusal,
    }
}

} // verus!

verus! {

/// Law: the diary remembers. After an exchange is remembered, the next
/// request carries it as the last turns before the new page, with every
/// earlier turn unchanged.
pub proof fn law_remembered_exchange_is_sent(
    system: Seq<char>,
    h: Seq<(Seq<char>, Seq<char>)>,
    wrote: Seq<char>,
    replied: Seq<char>,
    png: Seq<u8>,
)
    ensures
        ({
            let before = conversation(system, h, png);
            let after = conversation(system, h.push((wrote, replied)), png);
            &&& after.len() == before.len() + 2
            &&& after[after.len() - 3] == text_message(Role::User, wrote)
            &&& after[after.len() - 2] == text_message(Role::Assistant, replied)
            &&& after.last() == before.last()
            &&& forall|i: int| 0 <= i < before.len() - 1 ==> after[i] == before[i]
        }),
{
    let h2 = h.push((wrote, replied));
    assert(h2.drop_last() =~= h);
    let head = seq![text_message(Role::System, system)];
    let page = seq![
        MessageModel { role: Role::User, text: page_caption(), image_url: Some(page_uri(png)) },
    ];
    let before = conversation(system, h, png);
    let after = conversation(system, h2, png);
    let pair = seq![text_message(Role::User, wrote), text_message(Role::Assistant, replied)];
    assert(transcript_messages(h2) == transcript_messages(h) + pair);
    assert(after =~= head + transcript_messages(h) + pair + page);
    assert(before =~= head + transcript_messages(h) + page);
}

} // verus!

//! Shaping the diary's answer for the quill: one flowing paragraph, cut at
//! a word boundary when it runs long.

use vstd::prelude::*;
use crate::text::{is_whitespace, is_ws, push_char, to_chars};

verus! {

/// The words of a text are its maximal runs of non-white-space characters:
/// here the finished words and the word still being read, scanning left to
/// right.
pub open spec fn words_with(s: Seq<char>) -> (Seq<Seq<char>>, Seq<char>)
    decreases s.len(),
{
    if s.len() == 0 {
        (Seq::empty(), Seq::empty())
    } else {
        let (done, cur) = words_with(s.drop_last());
        if is_ws(s.last()) {
            if cur.len() > 0 {
                (done.push(cur), Seq::empty())
            } else {
                (done, Seq::empty())
            }
        } else {
            (done, cur.push(s.last()))
        }
    }
}

/// All words of a text, including the one it ends with.
pub open spec fn all_words(s: Seq<char>) -> Seq<Seq<char>> {
    let (done, cur) = words_with(s);
    if cur.len() > 0 {
        done.push(cur)
    } else {
        done
    }
}

/// Words joined by single spaces.
pub open spec fn join_words(ws: Seq<Seq<char>>) -> Seq<char>
    decreases ws.len(),
{
    if ws.len() == 0 {
        Seq::empty()
    } else if ws.len() == 1 {
        ws[0]
    } else {
        join_words(ws.drop_last()) + seq![' '] + ws.last()
    }
}

/// Appends a word to a paragraph, after a space unless it is the first.
pub open spec fn append_word(out: Seq<char>, w: Seq<char>) -> Seq<char> {
    if out.len() == 0 {
        w
    } else {
        out + seq![' '] + w
    }
}

pub proof fn lemma_join_push(ws: Seq<Seq<char>>, w: Seq<char>)
    requires
        forall|i: int| 0 <= i < ws.len() ==> (#[trigger] ws[i]).len() > 0,
    ensures
        join_words(ws.push(w)) == append_word(join_words(ws), w),
        ws.len() > 0 ==> join_words(ws).len() > 0,
    decreases ws.len(),
{
    assert(ws.push(w).drop_last() =~= ws);
    if ws.len() > 0 {
        lemma_join_push(ws.drop_last(), ws.last());
        assert(ws.drop_last().push(ws.last()) =~= ws);
    }
}

pub proof fn lemma_words_nonempty(s: Seq<char>)
    ensures
        forall|i: int| 0 <= i < words_with(s).0.len() ==> (#[trigger] words_with(s).0[i]).len() > 0,
    decreases s.len(),
{
    if s.len() > 0 {
        lemma_words_nonempty(s.drop_last());
        let done = words_with(s.drop_last()).0;
        let r = words_with(s).0;
        assert forall|i: int| 0 <= i < r.len() implies (#[trigger] r[i]).len() > 0 by {
            if i < done.len() {
                assert(r[i] == done[i]);
            }
        }
    }
}

/// One flowing paragraph: newlines and runs of white space collapse to
/// single spaces, with none at either end.
pub fn tidy_reply(text: &str) -> (out: String)
    ensures
        out@ == join_words(all_words(text@)),
{
    let v = to_chars(text);
    let n = v.len();
    let mut out = String::new();
    let mut cur: Vec<char> = Vec::new();
    let mut i: usize = 0;
    assert(v@.take(0) =~= Seq::<char>::empty());
    while i < n
        invariant
            i <= n,
            n == v@.len(),
            words_with(v@.take(i as int)).1 == cur@,
            out@ == join_words(words_with(v@.take(i as int)).0),
        decreases n - i,
    {
        let c = v[i];
        let ghost s = v@.take(i + 1);
        assert(s.drop_last() =~= v@.take(i as int));
        assert(s.last() == c);
        proof {
            lemma_words_nonempty(v@.take(i as int));
        }
        if is_whitespace(c) {
            if cur.len() > 0 {
                proof {
                    lemma_join_push(words_with(v@.take(i as int)).0, cur@);
                }
                push_word(&mut out, &cur);
            }
            cur = Vec::new();
        } else {
            cur.push(c);
        }
        i = i + 1;
    }
    assert(v@.take(n as int) =~= v@);
    proof {
        lemma_words_nonempty(v@);
    }
    if cur.len() > 0 {
        proof {
            lemma_join_push(words_with(v@).0, cur@);
        }
        push_word(&mut out, &cur);
    }
    out
}

fn push_word(out: &mut String, w: &Vec<char>)
    ensures
        final(out)@ == append_word(old(out)@, w@),
{
    let empty = out.as_str().is_empty();
    if !empty {
        push_char(out, ' ');
    }
    let n = w.len();
    let ghost base = out@;
    let mut i: usize = 0;
    while i < n
        invariant
            i <= n,
            n == w@.len(),
            out@ == base + w@.take(i as int),
        decreases n - i,
    {
        push_char(out, w[i]);
        assert(w@.take(i + 1) =~= w@.take(i as int).push(w@[i as int]));
        i = i + 1;
    }
    assert(w@.take(n as int) =~= w@);
    assert(final(out)@ =~= append_word(old(out)@, w@));
}

} // verus!

verus! {

/// How many bytes a character takes in UTF-8.
pub open spec fn char_bytes(c: char) -> nat {
    if (c as u32) < 0x80 {
        1
    } else if (c as u32) < 0x800 {
        2
    } else if (c as u32) < 0x10000 {
        3
    } else {
        4
    }
}

/// The UTF-8 length of a text in bytes, what `str::len` reports.
pub open spec fn byte_len(s: Seq<char>) -> nat
    decreases s.len(),
{
    if s.len() == 0 {
        0
    } else {
        byte_len(s.drop_last()) + char_bytes(s.last())
    }
}

pub proof fn lemma_byte_len_concat(a: Seq<char>, b: Seq<char>)
    ensures
        byte_len(a + b) == byte_len(a) + byte_len(b),
    decreases b.len(),
{
    if b.len() == 0 {
        assert(a + b =~= a);
    } else {
        lemma_byte_len_concat(a, b.drop_last());
        assert((a + b).drop_last() =~= a + b.drop_last());
    }
}

/// Takes whole words while the paragraph, a word and the closing `...`
/// would still fit in `max` bytes (with a byte to spare).
pub open spec fn fit_words(ws: Seq<Seq<char>>, max: nat, out: Seq<char>) -> Seq<char>
    decreases ws.len(),
{
    if ws.len() == 0 {
        out
    } else if byte_len(out) + byte_len(ws[0]) + 4 > max {
        out
    } else {
        fit_words(ws.drop_first(), max, append_word(out, ws[0]))
    }
}

/// The ellipsis that marks a cut.
pub open spec fn ellipsis() -> Seq<char> {
    seq!['.', '.', '.']
}

/// A text of at most `max` bytes is kept whole; a longer one is cut at a
/// word boundary and marked with `...`.
pub open spec fn truncated(text: Seq<char>, max: nat) -> Seq<char> {
    if byte_len(text) <= max {
        text
    } else {
        fit_words(all_words(text), max, Seq::empty()) + ellipsis()
    }
}

fn char_bytes_exec(c: char) -> (n: u128)
    ensures
        n == char_bytes(c),
{
    let u = c as u32;
    if u < 0x80 {
        1
    } else if u < 0x800 {
        2
    } else if u < 0x10000 {
        3
    } else {
        4
    }
}

fn byte_len_exec(v: &[char]) -> (n: u128)
    ensures
        n == byte_len(v@),
        n <= 4 * v@.len(),
{
    let len = v.len();
    let mut n: u128 = 0;
    let mut i: usize = 0;
    assert(v@.take(0) =~= Seq::<char>::empty());
    while i < len
        invariant
            i <= len,
            len == v@.len(),
            n == byte_len(v@.take(i as int)),
            n <= 4 * i,
        decreases len - i,
    {
        assert(v@.take(i + 1).drop_last() =~= v@.take(i as int));
        n = n + char_bytes_exec(v[i]);
        i = i + 1;
    }
    assert(v@.take(len as int) =~= v@);
    n
}

/// The words of a text, in order.
fn split_words(v: &Vec<char>) -> (ws: Vec<Vec<char>>)
    ensures
        ws@.map_values(|w: Vec<char>| w@) == all_words(v@),
{
    let n = v.len();
    let mut ws: Vec<Vec<char>> = Vec::new();
    let mut cur: Vec<char> = Vec::new();
    let mut i: usize = 0;
    assert(v@.take(0) =~= Seq::<char>::empty());
    assert(ws@.map_values(|w: Vec<char>| w@) =~= Seq::<Seq<char>>::empty());
    while i < n
        invariant
            i <= n,
            n == v@.len(),
            words_with(v@.take(i as int)).1 == cur@,
            ws@.map_values(|w: Vec<char>| w@) == words_with(v@.take(i as int)).0,
        decreases n - i,
    {
        let c = v[i];
        let ghost s = v@.take(i + 1);
        assert(s.drop_last() =~= v@.take(i as int));
        assert(s.last() == c);
        if is_whitespace(c) {
            if cur.len() > 0 {
                let ghost before = ws@.map_values(|w: Vec<char>| w@);
                let mut w: Vec<char> = Vec::new();
                std::mem::swap(&mut w, &mut cur);
                let ghost wv = w@;
                ws.push(w);
                assert(ws@.map_values(|w: Vec<char>| w@) =~= before.push(wv));
            }
            cur = Vec::new();
        } else {
            cur.push(c);
        }
        i = i + 1;
    }
    assert(v@.take(n as int) =~= v@);
    if cur.len() > 0 {
        let ghost before = ws@.map_values(|w: Vec<char>| w@);
        let ghost wv = cur@;
        ws.push(cur);
        assert(ws@.map_values(|w: Vec<char>| w@) =~= before.push(wv));
    }
    ws
}

/// Cuts a long reply at a word boundary so that it, with the closing
/// `...`, fits in `max_chars` bytes; a reply that fits is kept whole.
pub fn truncate_words(text: &str, max_chars: usize) -> (out: String)
    ensures
        out@ == truncated(text@, max_chars as nat),
{
    let v = to_chars(text);
    let total = byte_len_exec(&v);
    let mut out = String::new();
    if total <= max_chars as u128 {
        let n = v.len();
        let mut i: usize = 0;
        while i < n
            invariant
                i <= n,
                n == v@.len(),
                out@ == v@.take(i as int),
            decreases n - i,
        {
            push_char(&mut out, v[i]);
            assert(v@.take(i + 1) =~= v@.take(i as int).push(v@[i as int]));
            i = i + 1;
        }
        assert(v@.take(n as int) =~= v@);
        return out;
    }
    let ws = split_words(&v);
    let ghost wsv = ws@.map_values(|w: Vec<char>| w@);
    let mut used: u128 = 0;
    let m = ws.len();
    let mut k: usize = 0;
    let mut full = false;
    assert(wsv.skip(0) =~= wsv);
    while k < m && !full
        invariant
            full ==> fit_words(wsv.skip(k as int), max_chars as nat, out@) == out@,
            k <= m,
            m == wsv.len(),
            wsv == ws@.map_values(|w: Vec<char>| w@),
            used == byte_len(out@),
            used <= max_chars,
            fit_words(wsv, max_chars as nat, Seq::empty()) == fit_words(
                wsv.skip(k as int),
                max_chars as nat,
                out@,
            ),
        decreases m - k + (if full { 0int } else { 1int }),
    {
        let w = &ws[k];
        assert(wsv[k as int] == w@);
        assert(wsv.skip(k as int)[0] == w@);
        assert(wsv.skip(k as int).drop_first() =~= wsv.skip(k + 1));
        let wl = w.len();
        let wlen = byte_len_exec(w);
        if used + wlen + 4 > max_chars as u128 {
            full = true;
            continue;
        }
        let ghost before = out@;
        let was_empty = out.as_str().is_empty();
        push_word(&mut out, w);
        proof {
            if !was_empty {
                lemma_byte_len_concat(before, seq![' ']);
                lemma_byte_len_concat(before + seq![' '], w@);
                assert(seq![' '].drop_last() =~= Seq::<char>::empty());
                assert(byte_len(seq![' ']) == 1);
            }
        }
        used = if was_empty {
            wlen
        } else {
            used + 1 + wlen
        };
        k = k + 1;
    }
    if !full {
        assert(wsv.skip(k as int) =~= Seq::<Seq<char>>::empty());
    }
    let ghost kept = out@;
    assert(fit_words(wsv, max_chars as nat, Seq::empty()) == kept);
    push_char(&mut out, '.');
    push_char(&mut out, '.');
    push_char(&mut out, '.');
    assert(out@ =~= kept + ellipsis());
    out
}

} // verus!

verus! {

pub proof fn lemma_fit_words_bound(ws: Seq<Seq<char>>, max: nat, out: Seq<char>)
    requires
        byte_len(out) + 3 <= max,
    ensures
        byte_len(fit_words(ws, max, out)) + 3 <= max,
    decreases ws.len(),
{
    if ws.len() > 0 && byte_len(out) + byte_len(ws[0]) + 4 <= max {
        let next = append_word(out, ws[0]);
        if out.len() > 0 {
            lemma_byte_len_concat(out, seq![' ']);
            lemma_byte_len_concat(out + seq![' '], ws[0]);
            assert(seq![' '].drop_last() =~= Seq::<char>::empty());
            assert(byte_len(Seq::<char>::empty()) == 0);
            assert(seq![' '].last() == ' ');
            assert(byte_len(seq![' ']) == 1);
            assert(byte_len(next) == byte_len(out) + 1 + byte_len(ws[0]));
        }
        lemma_fit_words_bound(ws.drop_first(), max, next);
    }
}

/// Law: with room for at least the `...`, a cut reply never exceeds the
/// byte budget, and a reply within it is kept as it is.
pub proof fn law_truncated_fits(text: Seq<char>, max: nat)
    requires
        max >= 3,
    ensures
        byte_len(truncated(text, max)) <= max,
        byte_len(text) <= max ==> truncated(text, max) == text,
{
    if byte_len(text) > max {
        let kept = fit_words(all_words(text), max, Seq::empty());
        lemma_fit_words_bound(all_words(text), max, Seq::empty());
        lemma_byte_len_concat(kept, ellipsis());
        reveal_with_fuel(byte_len, 4);
        assert(ellipsis().drop_last().drop_last().drop_last() =~= Seq::<char>::empty());
    }
}

} // verus!

verus! {

/// No white space in a word.
pub open spec fn solid(w: Seq<char>) -> bool {
    forall|i: int| 0 <= i < w.len() ==> !is_ws(#[trigger] w[i])
}

/// Words read so far, and the one being read, are non-empty and solid.
pub proof fn lemma_words_solid(s: Seq<char>)
    ensures
        forall|i: int|
            0 <= i < words_with(s).0.len() ==> (#[trigger] words_with(s).0[i]).len() > 0 && solid(
                words_with(s).0[i],
            ),
        solid(words_with(s).1),
    decreases s.len(),
{
    if s.len() > 0 {
        lemma_words_solid(s.drop_last());
        let (done, cur) = words_with(s.drop_last());
        let (d2, c2) = words_with(s);
        assert forall|i: int| 0 <= i < d2.len() implies (#[trigger] d2[i]).len() > 0 && solid(d2[i]) by {
            if i < done.len() {
                assert(d2[i] == done[i]);
            }
        }
        if !is_ws(s.last()) {
            assert forall|i: int| 0 <= i < c2.len() implies !is_ws(#[trigger] c2[i]) by {
                if i < cur.len() {
                    assert(c2[i] == cur[i]);
                }
            }
        }
    }
}

/// Reading on through a solid run extends the word being read.
pub proof fn lemma_words_with_solid(p: Seq<char>, w: Seq<char>)
    requires
        solid(w),
    ensures
        words_with(p + w) == (words_with(p).0, words_with(p).1 + w),
    decreases w.len(),
{
    if w.len() == 0 {
        assert(p + w =~= p);
        assert(words_with(p).1 + w =~= words_with(p).1);
    } else {
        let w2 = w.drop_last();
        assert(solid(w2)) by {
            assert forall|i: int| 0 <= i < w2.len() implies !is_ws(#[trigger] w2[i]) by {
                assert(w2[i] == w[i]);
            }
        }
        lemma_words_with_solid(p, w2);
        assert((p + w).drop_last() =~= p + w2);
        assert((p + w).last() == w.last());
        assert(!is_ws(w[w.len() - 1]));
        assert((words_with(p).1 + w2).push(w.last()) =~= words_with(p).1 + w);
    }
}

/// Words joined by spaces read back as the same words.
pub proof fn lemma_join_reads_back(ws: Seq<Seq<char>>)
    requires
        ws.len() > 0,
        forall|i: int| 0 <= i < ws.len() ==> (#[trigger] ws[i]).len() > 0 && solid(ws[i]),
    ensures
        words_with(join_words(ws)) == (ws.drop_last(), ws.last()),
        all_words(join_words(ws)) == ws,
    decreases ws.len(),
{
    if ws.len() == 1 {
        lemma_words_with_solid(Seq::empty(), ws[0]);
        assert(Seq::<char>::empty() + ws[0] =~= ws[0]);
        assert(ws.drop_last() =~= Seq::<Seq<char>>::empty());
        assert(Seq::<Seq<char>>::empty().push(ws[0]) =~= ws);
    } else {
        let front = ws.drop_last();
        assert forall|i: int| 0 <= i < front.len() implies (#[trigger] front[i]).len() > 0 && solid(
            front[i],
        ) by {
            assert(front[i] == ws[i]);
        }
        lemma_join_reads_back(front);
        let j = join_words(front);
        let spaced = j + seq![' '];
        assert(spaced.drop_last() =~= j);
        assert(spaced.last() == ' ');
        assert(words_with(spaced) == (all_words(j), Seq::<char>::empty()));
        assert(ws[ws.len() - 1] == ws.last());
        lemma_words_with_solid(spaced, ws.last());
        assert(Seq::<char>::empty() + ws.last() =~= ws.last());
        assert(join_words(ws) == spaced + ws.last());
        assert(front.push(ws.last()) =~= ws);
    }
}

/// Law: tidying keeps exactly the words of the text, and tidying a tidied
/// text changes nothing.
pub proof fn law_tidy_keeps_words(s: Seq<char>)
    ensures
        all_words(join_words(all_words(s))) == all_words(s),
        join_words(all_words(join_words(all_words(s)))) == join_words(all_words(s)),
{
    let ws = all_words(s);
    lemma_words_solid(s);
    let (done, cur) = words_with(s);
    assert forall|i: int| 0 <= i < ws.len() implies (#[trigger] ws[i]).len() > 0 && solid(ws[i]) by {
        if i < done.len() {
            assert(ws[i] == done[i]);
        }
    }
    if ws.len() > 0 {
        lemma_join_reads_back(ws);
    } else {
        assert(join_words(ws) =~= Seq::<char>::empty());
        assert(words_with(Seq::<char>::empty()) == (Seq::<Seq<char>>::empty(), Seq::<char>::empty()));
    }
}

} // verus!

verus! {

/// Every word of a text holds at least one character.
pub proof fn lemma_all_words_nonempty(s: Seq<char>)
    ensures
        forall|i: int| 0 <= i < all_words(s).len() ==> (#[trigger] all_words(s)[i]).len() > 0,
{
    lemma_words_nonempty(s);
    let (done, cur) = words_with(s);
    assert forall|i: int| 0 <= i < all_words(s).len() implies (#[trigger] all_words(s)[i]).len()
        > 0 by {
        if i < done.len() {
            assert(all_words(s)[i] == done[i]);
        }
    }
}

/// Taking words from the `i`-th on, after the first `i` have been kept,
/// keeps exactly the words up to the first one that would not fit.
proof fn lemma_fit_words_prefix(ws: Seq<Seq<char>>, max: nat, i: int) -> (k: int)
    requires
        0 <= i <= ws.len(),
        forall|q: int| 0 <= q < ws.len() ==> (#[trigger] ws[q]).len() > 0,
        forall|q: int|
            0 <= q < i ==> byte_len(join_words(ws.take(q))) + byte_len(#[trigger] ws[q]) + 4 <= max,
    ensures
        i <= k <= ws.len(),
        fit_words(ws.skip(i), max, join_words(ws.take(i))) == join_words(ws.take(k)),
        forall|q: int|
            0 <= q < k ==> byte_len(join_words(ws.take(q))) + byte_len(#[trigger] ws[q]) + 4 <= max,
        k < ws.len() ==> byte_len(join_words(ws.take(k))) + byte_len(ws[k]) + 4 > max,
    decreases ws.len() - i,
{
    let s = ws.skip(i);
    if i == ws.len() {
        assert(s =~= Seq::<Seq<char>>::empty());
        i
    } else {
        assert(s[0] == ws[i]);
        if byte_len(join_words(ws.take(i))) + byte_len(ws[i]) + 4 > max {
            i
        } else {
            let t = ws.take(i);
            assert forall|q: int| 0 <= q < t.len() implies (#[trigger] t[q]).len() > 0 by {
                assert(t[q] == ws[q]);
            }
            lemma_join_push(t, ws[i]);
            assert(t.push(ws[i]) =~= ws.take(i + 1));
            assert(s.drop_first() =~= ws.skip(i + 1));
            lemma_fit_words_prefix(ws, max, i + 1)
        }
    }
}

/// Law: a reply too long for the budget keeps a leading run of its words,
/// joined by single spaces, and then `...`: every kept word fitted when it
/// was reached (the words before it, a space, the word and the `...` within
/// the budget with a byte to spare), and the cut falls at the first word that
/// did not. No word is skipped to let a later one in.
pub proof fn law_truncated_keeps_leading_words(text: Seq<char>, max: nat)
    requires
        byte_len(text) > max,
    ensures
        exists|k: int|
            #![trigger all_words(text).take(k)]
            0 <= k <= all_words(text).len() && truncated(text, max) == join_words(
                all_words(text).take(k),
            ) + ellipsis() && (forall|q: int|
                0 <= q < k ==> byte_len(join_words(all_words(text).take(q))) + byte_len(
                    #[trigger] all_words(text)[q],
                ) + 4 <= max) && (k < all_words(text).len() ==> byte_len(
                join_words(all_words(text).take(k)),
            ) + byte_len(all_words(text)[k]) + 4 > max),
{
    let ws = all_words(text);
    lemma_all_words_nonempty(text);
    assert(ws.skip(0) =~= ws);
    assert(ws.take(0) =~= Seq::<Seq<char>>::empty());
    let k = lemma_fit_words_prefix(ws, max, 0);
    assert(truncated(text, max) == join_words(ws.take(k)) + ellipsis());
}

} // verus!

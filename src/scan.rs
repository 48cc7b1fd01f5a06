//! Byte-level scanning: ASCII whitespace, tokens and whitespace runs.

use vstd::prelude::*;
use vstd::slice::slice_subrange;

verus! {

/// ASCII whitespace as `u8::is_ascii_whitespace` classifies it:
/// space, tab, line feed, form feed and carriage return.
pub open spec fn is_ws(b: u8) -> bool {
    b == 0x20u8 || b == 0x09u8 || b == 0x0au8 || b == 0x0cu8 || b == 0x0du8
}

/// Length of the run of non-whitespace bytes at the start of `s`.
pub open spec fn word_len(s: Seq<u8>) -> nat
    decreases s.len(),
{
    if s.len() > 0 && !is_ws(s[0]) {
        1 + word_len(s.drop_first())
    } else {
        0
    }
}

/// Length of the run of whitespace bytes at the start of `s`.
pub open spec fn ws_len(s: Seq<u8>) -> nat
    decreases s.len(),
{
    if s.len() > 0 && is_ws(s[0]) {
        1 + ws_len(s.drop_first())
    } else {
        0
    }
}

/// The tokens of `s`: its maximal runs of non-whitespace bytes, in order.
pub open spec fn tokens(s: Seq<u8>) -> Seq<Seq<u8>>
    decreases s.len(),
    via tokens_decreases
{
    if s.len() == 0 {
        Seq::empty()
    } else if is_ws(s[0]) {
        tokens(s.drop_first())
    } else {
        seq![s.take(word_len(s) as int)] + tokens(s.skip(word_len(s) as int))
    }
}

#[via_fn]
proof fn tokens_decreases(s: Seq<u8>) {
    if s.len() > 0 && !is_ws(s[0]) {
        lemma_word_len_bounds(s);
    }
}

/// A token is never longer than what it is read from, and a byte that
/// is not whitespace starts a token of at least one byte.
pub proof fn lemma_word_len_bounds(s: Seq<u8>)
    ensures
        word_len(s) <= s.len(),
        s.len() > 0 && !is_ws(s[0]) ==> word_len(s) >= 1,
    decreases s.len(),
{
    if s.len() > 0 && !is_ws(s[0]) {
        lemma_word_len_bounds(s.drop_first());
    }
}

/// `word_len` is the one length `n` whose prefix holds no whitespace and which
/// stops at the end of `s` or before a whitespace byte.
pub proof fn lemma_word_len_exact(s: Seq<u8>, n: nat)
    requires
        n <= s.len(),
        forall|i: int| 0 <= i < n ==> !is_ws(#[trigger] s[i]),
        n == s.len() || is_ws(s[n as int]),
    ensures
        word_len(s) == n,
    decreases n,
{
    if n > 0 {
        let t = s.drop_first();
        assert forall|i: int| 0 <= i < n - 1 implies !is_ws(#[trigger] t[i]) by {
            assert(t[i] == s[i + 1]);
        }
        lemma_word_len_exact(t, (n - 1) as nat);
    }
}

/// `ws_len` is the one length `n` whose prefix is all whitespace and which
/// stops at the end of `s` or before a byte that is not whitespace.
pub proof fn lemma_ws_len_exact(s: Seq<u8>, n: nat)
    requires
        n <= s.len(),
        forall|i: int| 0 <= i < n ==> is_ws(#[trigger] s[i]),
        n == s.len() || !is_ws(s[n as int]),
    ensures
        ws_len(s) == n,
    decreases n,
{
    if n > 0 {
        let t = s.drop_first();
        assert forall|i: int| 0 <= i < n - 1 implies is_ws(#[trigger] t[i]) by {
            assert(t[i] == s[i + 1]);
        }
        lemma_ws_len_exact(t, (n - 1) as nat);
    }
}

/// Whether `b` is ASCII whitespace.
pub fn is_ascii_ws(b: u8) -> (r: bool)
    ensures
        r == is_ws(b),
{
    b == 0x20u8 || b == 0x09u8 || b == 0x0au8 || b == 0x0cu8 || b == 0x0du8
}

/// The token at the start of `bytes`: its leading run of non-whitespace bytes.
pub fn get_word(bytes: &[u8]) -> (r: &[u8])
    ensures
        r@ == bytes@.take(word_len(bytes@) as int),
        r@.len() == word_len(bytes@),
{
    let mut i: usize = 0;
    while i < bytes.len()
        invariant
            i <= bytes@.len(),
            forall|k: int| 0 <= k < i ==> !is_ws(#[trigger] bytes@[k]),
        ensures
            i <= bytes@.len(),
            forall|k: int| 0 <= k < i ==> !is_ws(#[trigger] bytes@[k]),
            i == bytes@.len() || is_ws(bytes@[i as int]),
        decreases bytes@.len() - i,
    {
        if is_ascii_ws(bytes[i]) {
            break;
        }
        i = i + 1;
    }
    proof {
        lemma_word_len_exact(bytes@, i as nat);
    }
    slice_subrange(bytes, 0, i)
}

/// The whitespace at the start of `bytes`: its leading run of whitespace bytes.
pub fn get_whitespace(bytes: &[u8]) -> (r: &[u8])
    ensures
        r@ == bytes@.take(ws_len(bytes@) as int),
        r@.len() == ws_len(bytes@),
{
    let mut i: usize = 0;
    while i < bytes.len()
        invariant
            i <= bytes@.len(),
            forall|k: int| 0 <= k < i ==> is_ws(#[trigger] bytes@[k]),
        ensures
            i <= bytes@.len(),
            forall|k: int| 0 <= k < i ==> is_ws(#[trigger] bytes@[k]),
            i == bytes@.len() || !is_ws(bytes@[i as int]),
        decreases bytes@.len() - i,
    {
        if !is_ascii_ws(bytes[i]) {
            break;
        }
        i = i + 1;
    }
    proof {
        lemma_ws_len_exact(bytes@, i as nat);
    }
    slice_subrange(bytes, 0, i)
}

/// A line without its line ending: a final `\n`, or `\r\n`, is dropped.
pub open spec fn line_body(raw: Seq<u8>) -> Seq<u8> {
    if raw.len() > 0 && raw.last() == 0x0au8 {
        let t = raw.drop_last();
        if t.len() > 0 && t.last() == 0x0du8 {
            t.drop_last()
        } else {
            t
        }
    } else {
        raw
    }
}

/// The line `raw` without its line ending, as `BufRead::lines` hands lines out.
pub fn strip_line_end(raw: &[u8]) -> (r: &[u8])
    ensures
        r@ == line_body(raw@),
{
    let mut end = raw.len();
    if end > 0 && raw[end - 1] == 0x0au8 {
        end = end - 1;
        if end > 0 && raw[end - 1] == 0x0du8 {
            end = end - 1;
        }
    }
    let r = slice_subrange(raw, 0, end);
    proof {
        if raw@.len() > 0 && raw@.last() == 0x0au8 {
            let t = raw@.drop_last();
            if t.len() > 0 && t.last() == 0x0du8 {
                assert(r@ =~= t.drop_last());
            } else {
                assert(r@ =~= t);
            }
        } else {
            assert(r@ =~= raw@);
        }
    }
    r
}

/// Skipping leading whitespace does not change the tokens.
pub proof fn lemma_tokens_skip_ws(s: Seq<u8>, k: nat)
    requires
        k <= s.len(),
        forall|i: int| 0 <= i < k ==> is_ws(#[trigger] s[i]),
    ensures
        tokens(s) == tokens(s.skip(k as int)),
    decreases k,
{
    if k > 0 {
        let t = s.drop_first();
        assert forall|i: int| 0 <= i < k - 1 implies is_ws(#[trigger] t[i]) by {
            assert(t[i] == s[i + 1]);
        }
        lemma_tokens_skip_ws(t, (k - 1) as nat);
        assert(t.skip(k - 1) =~= s.skip(k as int));
    } else {
        assert(s.skip(0) =~= s);
    }
}

/// The tokens of `s` from `pos` on: none where only whitespace is left, else
/// the token after the whitespace run, then the tokens after that token.
pub proof fn lemma_tokens_step(s: Seq<u8>, pos: int)
    requires
        0 <= pos <= s.len(),
    ensures
        ({
            let w = pos + ws_len(s.skip(pos));
            &&& w <= s.len()
            &&& tokens(s.skip(pos)) == tokens(s.skip(w))
            &&& w == s.len() ==> tokens(s.skip(w)) == Seq::<Seq<u8>>::empty()
            &&& w < s.len() ==> {
                let n = word_len(s.skip(w));
                &&& 1 <= n
                &&& w + n <= s.len()
                &&& tokens(s.skip(w)) == seq![s.skip(w).take(n as int)] + tokens(
                    s.skip(w + n),
                )
            }
        }),
{
    let r = s.skip(pos);
    lemma_ws_len_facts(r);
    let k = ws_len(r);
    lemma_tokens_skip_ws(r, k);
    assert(r.skip(k as int) =~= s.skip(pos + k));
    let w = pos + k;
    let t = s.skip(w);
    if w < s.len() {
        assert(t[0] == r[k as int]);
        lemma_word_len_bounds(t);
        assert(t.skip(word_len(t) as int) =~= s.skip(w + word_len(t)));
    }
}

/// The whitespace run at the start of `s` lies in `s`, is all whitespace, and
/// is followed by a byte that is not whitespace, if any.
pub proof fn lemma_ws_len_facts(s: Seq<u8>)
    ensures
        ws_len(s) <= s.len(),
        forall|i: int| 0 <= i < ws_len(s) ==> is_ws(#[trigger] s[i]),
        ws_len(s) < s.len() ==> !is_ws(s[ws_len(s) as int]),
    decreases s.len(),
{
    if s.len() > 0 && is_ws(s[0]) {
        let t = s.drop_first();
        lemma_ws_len_facts(t);
        assert forall|i: int| 0 <= i < ws_len(s) implies is_ws(#[trigger] s[i]) by {
            if i > 0 {
                assert(s[i] == t[i - 1]);
            }
        }
    }
}

/// The token at the start of `s` holds no whitespace and ends at the end of
/// `s` or before a whitespace byte.
pub proof fn lemma_word_len_facts(s: Seq<u8>)
    ensures
        word_len(s) <= s.len(),
        forall|i: int| 0 <= i < word_len(s) ==> !is_ws(#[trigger] s[i]),
        word_len(s) < s.len() ==> is_ws(s[word_len(s) as int]),
    decreases s.len(),
{
    if s.len() > 0 && !is_ws(s[0]) {
        let t = s.drop_first();
        lemma_word_len_facts(t);
        assert forall|i: int| 0 <= i < word_len(s) implies !is_ws(#[trigger] s[i]) by {
            if i > 0 {
                assert(s[i] == t[i - 1]);
            }
        }
    }
}

/// Appends the bytes of `src` to `dst`.
pub(crate) fn append_bytes(dst: &mut Vec<u8>, src: &[u8])
    ensures
        final(dst)@ == old(dst)@ + src@,
{
    let mut i: usize = 0;
    while i < src.len()
        invariant
            i <= src@.len(),
            dst@ == old(dst)@ + src@.take(i as int),
        decreases src@.len() - i,
    {
        dst.push(src[i]);
        i = i + 1;
        proof {
            assert(src@.take(i as int) =~= src@.take(i - 1) + seq![src@[i - 1]]);
        }
    }
    proof {
        assert(src@.take(i as int) =~= src@);
    }
}

} // verus!

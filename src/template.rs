//! Rewriting a record into its template: rare tokens become a wildcard, every
//! other byte is copied as it stands.

use vstd::prelude::*;
use vstd::slice::slice_subrange;
use crate::digest::{digest, fnv1a};
use crate::freq::count_in;
use crate::scan::{
    append_bytes, get_whitespace, get_word, is_ws, lemma_tokens_skip_ws, lemma_word_len_bounds,
    lemma_word_len_exact, lemma_word_len_facts, lemma_ws_len_facts, tokens, word_len,
};
use crate::tables::{word_count_get, word_counts, WordCount};

verus! {

/// The byte that stands in a template for a rare token: `*`.
pub const WILDCARD: u8 = 0x2a;

/// Whether a token is rare: fewer than `word_threshold` tokens with its digest.
pub open spec fn is_rare(w: Seq<u8>, word_freq: Map<u64, u64>, word_threshold: u64) -> bool {
    count_in(word_freq, digest(w)) < word_threshold
}

/// What a token becomes in a template: the wildcard when it is rare, else itself.
pub open spec fn emit(w: Seq<u8>, word_freq: Map<u64, u64>, word_threshold: u64) -> Seq<u8> {
    if is_rare(w, word_freq, word_threshold) {
        seq![WILDCARD]
    } else {
        w
    }
}

/// `s` with each token replaced by what it becomes and every whitespace byte
/// kept.
pub open spec fn rewrite(s: Seq<u8>, word_freq: Map<u64, u64>, word_threshold: u64) -> Seq<u8>
    decreases s.len(),
    via rewrite_decreases
{
    if s.len() == 0 {
        Seq::empty()
    } else if is_ws(s[0]) {
        seq![s[0]] + rewrite(s.drop_first(), word_freq, word_threshold)
    } else {
        emit(s.take(word_len(s) as int), word_freq, word_threshold) + rewrite(
            s.skip(word_len(s) as int),
            word_freq,
            word_threshold,
        )
    }
}

#[via_fn]
proof fn rewrite_decreases(s: Seq<u8>, word_freq: Map<u64, u64>, word_threshold: u64) {
    if s.len() > 0 && !is_ws(s[0]) {
        lemma_word_len_bounds(s);
    }
}

/// The template of a record: empty when it holds no token, else its rewrite.
pub open spec fn template(chunk: Seq<u8>, word_freq: Map<u64, u64>, word_threshold: u64) -> Seq<
    u8,
> {
    if tokens(chunk).len() == 0 {
        Seq::empty()
    } else {
        rewrite(chunk, word_freq, word_threshold)
    }
}

/// A leading whitespace run is copied into the rewrite as it stands.
pub proof fn lemma_rewrite_skip_ws(s: Seq<u8>, k: nat, word_freq: Map<u64, u64>, word_threshold: u64)
    requires
        k <= s.len(),
        forall|i: int| 0 <= i < k ==> is_ws(#[trigger] s[i]),
    ensures
        rewrite(s, word_freq, word_threshold) == s.take(k as int) + rewrite(
            s.skip(k as int),
            word_freq,
            word_threshold,
        ),
    decreases k,
{
    if k > 0 {
        let t = s.drop_first();
        assert forall|i: int| 0 <= i < k - 1 implies is_ws(#[trigger] t[i]) by {
            assert(t[i] == s[i + 1]);
        }
        lemma_rewrite_skip_ws(t, (k - 1) as nat, word_freq, word_threshold);
        assert(t.skip(k - 1) =~= s.skip(k as int));
        assert(seq![s[0]] + t.take(k - 1) =~= s.take(k as int));
    } else {
        assert(s.skip(0) =~= s);
    }
}

/// Rewrites a record into its template: each token that fewer than
/// `word_threshold` tokens of the table share a digest with becomes `*`, every
/// other byte, whitespace included, is copied. A record without tokens gives
/// an empty template.
pub fn clusterify(chunk: &[u8], word_freq: &WordCount, word_threshold: u64) -> (r: Vec<u8>)
    ensures
        r@ == template(chunk@, word_counts(*word_freq), word_threshold),
{
    let ghost wf = word_counts(*word_freq);
    let len = chunk.len();
    let mut result: Vec<u8> = Vec::new();
    let mut seen = false;
    let mut pos: usize = 0;
    assert(chunk@.skip(0) =~= chunk@);
    while pos < len
        invariant
            len == chunk@.len(),
            pos <= len,
            wf == word_counts(*word_freq),
            result@ + rewrite(chunk@.skip(pos as int), wf, word_threshold) == rewrite(
                chunk@,
                wf,
                word_threshold,
            ),
            !seen ==> forall|i: int| 0 <= i < pos ==> is_ws(#[trigger] chunk@[i]),
            seen ==> tokens(chunk@).len() > 0,
        ensures
            pos == len,
            result@ + rewrite(chunk@.skip(pos as int), wf, word_threshold) == rewrite(
                chunk@,
                wf,
                word_threshold,
            ),
            !seen ==> forall|i: int| 0 <= i < pos ==> is_ws(#[trigger] chunk@[i]),
            seen ==> tokens(chunk@).len() > 0,
        decreases len - pos,
    {
        let tail = slice_subrange(chunk, pos, len);
        let ws = get_whitespace(tail);
        proof {
            assert(tail@ =~= chunk@.skip(pos as int));
            lemma_ws_len_facts(tail@);
            lemma_rewrite_skip_ws(tail@, ws@.len(), wf, word_threshold);
            assert(tail@.skip(ws@.len() as int) =~= chunk@.skip(pos + ws@.len()));
            assert forall|i: int| pos <= i < pos + ws@.len() implies is_ws(#[trigger] chunk@[i]) by {
                assert(chunk@[i] == tail@[i - pos]);
            }
        }
        append_bytes(&mut result, ws);
        pos = pos + ws.len();
        proof {
            assert(result@ + rewrite(chunk@.skip(pos as int), wf, word_threshold) =~= result@.take(
                result@.len() - ws@.len(),
            ) + (ws@ + rewrite(chunk@.skip(pos as int), wf, word_threshold)));
        }
        if pos == len {
            break;
        }
        let rest = slice_subrange(chunk, pos, len);
        let word = get_word(rest);
        proof {
            assert(rest@ =~= chunk@.skip(pos as int));
            lemma_word_len_bounds(rest@);
            assert(rest@[0] == chunk@[pos as int]);
            assert(rest@.skip(word@.len() as int) =~= chunk@.skip(pos + word@.len()));
            if !seen {
                lemma_tokens_skip_ws(chunk@, pos as nat);
            }
        }
        let count: u64 = match word_count_get(word_freq, fnv1a(word)) {
            Some(c) => c,
            None => 0,
        };
        if count < word_threshold {
            result.push(WILDCARD);
        } else {
            append_bytes(&mut result, word);
        }
        proof {
            let e = emit(word@, wf, word_threshold);
            assert(result@ + rewrite(chunk@.skip(pos + word@.len()), wf, word_threshold) =~= result@.take(
                result@.len() - e.len(),
            ) + (e + rewrite(chunk@.skip(pos + word@.len()), wf, word_threshold)));
        }
        seen = true;
        pos = pos + word.len();
    }
    if !seen {
        proof {
            lemma_tokens_skip_ws(chunk@, len as nat);
            assert(chunk@.skip(len as int) =~= Seq::<u8>::empty());
        }
        return Vec::new();
    }
    proof {
        assert(chunk@.skip(len as int) =~= Seq::<u8>::empty());
        assert(result@ + Seq::<u8>::empty() =~= result@);
    }
    result
}

/// The layout of `s`: each token collapsed to the single byte 0, every
/// whitespace byte kept where it stands.
pub open spec fn shape(s: Seq<u8>) -> Seq<u8>
    decreases s.len(),
    via shape_decreases
{
    if s.len() == 0 {
        Seq::empty()
    } else if is_ws(s[0]) {
        seq![s[0]] + shape(s.drop_first())
    } else {
        seq![0u8] + shape(s.skip(word_len(s) as int))
    }
}

#[via_fn]
proof fn shape_decreases(s: Seq<u8>) {
    if s.len() > 0 && !is_ws(s[0]) {
        lemma_word_len_bounds(s);
    }
}

/// A non-empty run of non-whitespace bytes followed by nothing or by
/// whitespace is one token in the layout.
proof fn lemma_shape_word(w: Seq<u8>, r: Seq<u8>)
    requires
        w.len() > 0,
        forall|i: int| 0 <= i < w.len() ==> !is_ws(#[trigger] w[i]),
        r.len() == 0 || is_ws(r[0]),
    ensures
        shape(w + r) == seq![0u8] + shape(r),
{
    let s = w + r;
    assert forall|i: int| 0 <= i < w.len() implies !is_ws(#[trigger] s[i]) by {
        assert(s[i] == w[i]);
    }
    if r.len() > 0 {
        assert(s[w.len() as int] == r[0]);
    }
    lemma_word_len_exact(s, w.len());
    assert(s.skip(w.len() as int) =~= r);
}

/// A rewrite is empty only for an empty input, and starts with the same
/// byte where the input starts with whitespace.
proof fn lemma_rewrite_head(s: Seq<u8>, word_freq: Map<u64, u64>, word_threshold: u64)
    ensures
        s.len() == 0 <==> rewrite(s, word_freq, word_threshold).len() == 0,
        s.len() > 0 && is_ws(s[0]) ==> rewrite(s, word_freq, word_threshold)[0] == s[0],
{
    if s.len() > 0 && !is_ws(s[0]) {
        lemma_word_len_bounds(s);
    }
}

/// A non-empty run of non-whitespace bytes followed by nothing or by
/// whitespace is the first token.
proof fn lemma_tokens_word(w: Seq<u8>, r: Seq<u8>)
    requires
        w.len() > 0,
        forall|i: int| 0 <= i < w.len() ==> !is_ws(#[trigger] w[i]),
        r.len() == 0 || is_ws(r[0]),
    ensures
        tokens(w + r) == seq![w] + tokens(r),
{
    let s = w + r;
    assert forall|i: int| 0 <= i < w.len() implies !is_ws(#[trigger] s[i]) by {
        assert(s[i] == w[i]);
    }
    if r.len() > 0 {
        assert(s[w.len() as int] == r[0]);
    }
    lemma_word_len_exact(s, w.len());
    assert(s.skip(w.len() as int) =~= r);
    assert(s.take(w.len() as int) =~= w);
}

/// What the tokens of a record become in its template, in order.
pub open spec fn emitted_tokens(
    toks: Seq<Seq<u8>>,
    word_freq: Map<u64, u64>,
    word_threshold: u64,
) -> Seq<Seq<u8>> {
    toks.map_values(|w: Seq<u8>| emit(w, word_freq, word_threshold))
}

/// Rewriting keeps the layout and replaces each token by what it becomes.
proof fn lemma_rewrite_shape(s: Seq<u8>, word_freq: Map<u64, u64>, word_threshold: u64)
    ensures
        shape(rewrite(s, word_freq, word_threshold)) == shape(s),
        tokens(rewrite(s, word_freq, word_threshold)) == emitted_tokens(
            tokens(s),
            word_freq,
            word_threshold,
        ),
    decreases s.len(),
{
    if s.len() == 0 {
        assert(emitted_tokens(tokens(s), word_freq, word_threshold) =~= Seq::<Seq<u8>>::empty());
    } else if is_ws(s[0]) {
        let x = rewrite(s.drop_first(), word_freq, word_threshold);
        lemma_rewrite_shape(s.drop_first(), word_freq, word_threshold);
        let y = seq![s[0]] + x;
        assert(y[0] == s[0]);
        assert(y.drop_first() =~= x);
    } else {
        lemma_word_len_facts(s);
        lemma_word_len_bounds(s);
        let n = word_len(s) as int;
        let w = s.take(n);
        let r = s.skip(n);
        lemma_rewrite_shape(r, word_freq, word_threshold);
        lemma_rewrite_head(r, word_freq, word_threshold);
        if n < s.len() {
            assert(r[0] == s[n]);
        }
        let e = emit(w, word_freq, word_threshold);
        assert forall|i: int| 0 <= i < e.len() implies !is_ws(#[trigger] e[i]) by {
            if !is_rare(w, word_freq, word_threshold) {
                assert(e[i] == s[i]);
            }
        }
        lemma_shape_word(e, rewrite(r, word_freq, word_threshold));
        lemma_tokens_word(e, rewrite(r, word_freq, word_threshold));
        assert forall|i: int| 0 <= i < w.len() implies !is_ws(#[trigger] w[i]) by {
            assert(w[i] == s[i]);
        }
        assert(emitted_tokens(seq![w] + tokens(r), word_freq, word_threshold) =~= seq![e]
            + emitted_tokens(tokens(r), word_freq, word_threshold));
    }
}

/// A record's template keeps its whitespace byte for byte: where the record
/// holds a token, template and record have the same layout (the same
/// whitespace runs around the same number of tokens), and the template's
/// tokens are the record's, each rare one replaced by the wildcard; where the
/// record holds no token, the template is empty.
pub proof fn lemma_template_keeps_whitespace(
    chunk: Seq<u8>,
    word_freq: Map<u64, u64>,
    word_threshold: u64,
)
    ensures
        tokens(chunk).len() > 0 ==> shape(template(chunk, word_freq, word_threshold)) == shape(
            chunk,
        ),
        tokens(chunk).len() > 0 ==> tokens(template(chunk, word_freq, word_threshold))
            == emitted_tokens(tokens(chunk), word_freq, word_threshold),
        tokens(chunk).len() == 0 ==> template(chunk, word_freq, word_threshold).len() == 0,
{
    lemma_rewrite_shape(chunk, word_freq, word_threshold);
}

} // verus!

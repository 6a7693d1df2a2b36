//! Reading the model's answer to a refine prompt.
use crate::text::compose::{byte_count, byte_len, cat4};
use crate::text::search::{
    find, find_text, lemma_find, lemma_find_is, lemma_rfind, occurs_at, rfind, rfind_text, slice_text, starts_with,
    starts_with_text,
};
use crate::text::trim::{trim_text, trimmed};
use vstd::prelude::*;
use vstd::string::*;

verus! {

broadcast use vstd::string::group_string_axioms;

/// Where the body of a fenced text begins: behind the first line, or behind the fence itself where
/// there is no second line.
pub open spec fn fence_body_start(t: Seq<char>) -> int {
    match find(t, "\n"@) {
        Some(i) => i + 1,
        None => 3,
    }
}

/// Where the body of a fenced text ends: at the last fence.
pub open spec fn fence_body_end(t: Seq<char>) -> int {
    match rfind(t, "```"@) {
        Some(i) => i,
        None => t.len() as int,
    }
}

/// A text that begins with a fence has a closing one behind its first line.
pub open spec fn fence_is_closed(raw: Seq<char>) -> bool {
    let t = trimmed(raw);
    starts_with(t, "```"@) ==> fence_body_start(t) <= fence_body_end(t)
}

/// The text without a surrounding fence and without white space around it.
pub open spec fn unfenced(raw: Seq<char>) -> Seq<char> {
    let t = trimmed(raw);
    if starts_with(t, "```"@) {
        trimmed(t.subrange(fence_body_start(t), fence_body_end(t)))
    } else {
        trimmed(t)
    }
}

fn fence_bounds(t: &str) -> (r: (usize, usize))
    requires
        starts_with(t@, "```"@),
    ensures
        r.0 == fence_body_start(t@),
        r.1 == fence_body_end(t@),
        r.0 <= t@.len(),
        r.1 <= t@.len(),
{
    proof {
        reveal_strlit("\n");
        reveal_strlit("```");
        lemma_find(t@, "\n"@);
        lemma_rfind(t@, "```"@);
    }
    let n: usize = t.unicode_len();
    let start: usize = match find_text(t, "\n") {
        Some(i) => {
            assert(i + 1 <= n);
            i + 1
        },
        None => 3,
    };
    let end: usize = match rfind_text(t, "```") {
        Some(i) => i,
        None => n,
    };
    (start, end)
}

/// Whether the JSON text can be taken out.
pub fn has_closed_fence(raw: &str) -> (r: bool)
    ensures
        r == fence_is_closed(raw@),
{
    let t = trim_text(raw);
    if starts_with_text(t.as_str(), "```") {
        let (start, end) = fence_bounds(t.as_str());
        start <= end
    } else {
        true
    }
}

/// The JSON text of an answer that may be fenced.
pub fn extract_json(raw: &str) -> (r: String)
    requires
        fence_is_closed(raw@),
    ensures
        r@ == unfenced(raw@),
{
    let t = trim_text(raw);
    if starts_with_text(t.as_str(), "```") {
        let (start, end) = fence_bounds(t.as_str());
        let body = slice_text(t.as_str(), start, end);
        trim_text(body.as_str())
    } else {
        trim_text(t.as_str())
    }
}

/// The text can be cut at byte `max` if it is longer.
pub open spec fn can_truncate(s: Seq<char>, max: nat) -> bool {
    byte_len(s) > max ==> vstd::utf8::is_char_boundary(vstd::utf8::encode_utf8(s), max as int)
}

/// The text, cut at byte `max` if it is longer.
pub open spec fn truncated(s: Seq<char>, max: nat) -> Seq<char> {
    if byte_len(s) <= max {
        s
    } else {
        vstd::utf8::decode_utf8(vstd::utf8::encode_utf8(s).subrange(0, max as int))
    }
}

/// The beginning of a text, at most `max` bytes.
pub fn truncate_raw(s: &str, max: usize) -> (r: &str)
    requires
        can_truncate(s@, max as nat),
    ensures
        r@ == truncated(s@, max as nat),
{
    if byte_count(s) <= max {
        s
    } else {
        let (head, _tail) = s.split_at(max);
        proof {
            vstd::utf8::encode_utf8_decode_utf8(head@);
        }
        head
    }
}

/// What is reported of an answer that is no valid JSON.
pub fn parse_failure(error: &str, raw: &str) -> (r: String)
    requires
        can_truncate(raw@, 500),
    ensures
        r@ == "failed to parse refine JSON: "@ + error@ + "\nraw response: "@ + truncated(raw@, 500),
{
    cat4("failed to parse refine JSON: ", error, "\nraw response: ", truncate_raw(raw, 500))
}

/// A text in a fence, with a language behind the opening fence, is unwrapped to what stands between the
/// fences.
pub proof fn fenced_text_is_unwrapped(lang: Seq<char>, body: Seq<char>)
    requires
        !lang.contains('\n'),
    ensures
        ({
            let w = "```"@ + lang + "\n"@ + body + "\n```"@;
            fence_is_closed(w) && unfenced(w) == trimmed(body)
        }),
{
    reveal_strlit("```");
    reveal_strlit("\n");
    reveal_strlit("\n```");
    let w = "```"@ + lang + "\n"@ + body + "\n```"@;
    let n = lang.len() as int;
    let m = body.len() as int;
    assert(w.len() == 3 + n + 1 + m + 4);
    assert(w[0] == '`');
    assert(w.last() == '`');
    assert(trimmed(w) == w);
    assert(w.subrange(0, 3) =~= "```"@);
    // The first line ends behind the language.
    assert(w[3 + n] == '\n');
    assert(w.subrange(3 + n, 4 + n) =~= "\n"@);
    assert forall|j: int| 0 <= j < 3 + n implies !#[trigger] occurs_at(w, "\n"@, j) by {
        if occurs_at(w, "\n"@, j) {
            assert(w.subrange(j, j + 1)[0] == w[j]);
            if j >= 3 {
                assert(w[j] == lang[j - 3]);
                assert(lang.contains('\n'));
            }
        }
    }
    lemma_find_is(w, "\n"@, 0, 3 + n);
    // The last fence stands at the end.
    assert(w.subrange(w.len() - 3, w.len() as int) =~= "```"@);
    lemma_rfind(w, "```"@);
    assert(occurs_at(w, "```"@, w.len() - 3));
    assert(rfind(w, "```"@) == Some(w.len() - 3));
    assert(w.subrange(4 + n, w.len() - 3) =~= body.push('\n'));
    crate::text::trim::lemma_trimmed_push_space(body, '\n');
}

/// A text without a fence is left as it is, but for white space around it.
pub proof fn plain_text_is_left_alone(raw: Seq<char>)
    requires
        !starts_with(trimmed(raw), "```"@),
    ensures
        unfenced(raw) == trimmed(raw),
        fence_is_closed(raw),
{
    crate::text::trim::trimming_is_idempotent(raw);
}

/// A text that is cut loses its end only, and what is left has as many bytes as it may have; a text that is
/// short enough is not cut.
pub proof fn cut_texts_lose_their_end(s: Seq<char>, max: nat)
    requires
        can_truncate(s, max),
    ensures
        byte_len(s) <= max ==> truncated(s, max) == s,
        byte_len(s) > max ==> byte_len(truncated(s, max)) == max && starts_with(s, truncated(s, max)),
{
    if byte_len(s) > max {
        let bytes = vstd::utf8::encode_utf8(s);
        vstd::utf8::encode_utf8_valid_utf8(s);
        vstd::utf8::encode_utf8_decode_utf8(s);
        vstd::utf8::valid_utf8_split(bytes, max as int);
        vstd::utf8::decode_utf8_split(bytes, max as int);
        let head = bytes.subrange(0, max as int);
        assert(vstd::utf8::valid_utf8(head));
        vstd::utf8::decode_utf8_encode_utf8(head);
        let t = truncated(s, max);
        assert(s.subrange(0, t.len() as int) =~= t);
    }
}

}

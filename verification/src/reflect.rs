//! Textual shader reflection helpers.
//!
//! The GPU interface reports no storage qualifiers for buffer blocks,
//! so whether a storage block is read-only has to be parsed out of the
//! shader source: find the `buffer` keyword that introduces the block
//! with the given name, then look for a `readonly` token between the
//! end of the previous declaration and that keyword.  The scan works
//! on the raw bytes of the source, with ASCII whitespace.

use vstd::prelude::*;

verus! {

/// ASCII whitespace.
pub open spec fn is_space(b: u8) -> bool {
    b == 32 || b == 9 || b == 10 || b == 11 || b == 12 || b == 13
}

fn is_space_byte(b: u8) -> (out: bool)
    ensures
        out == is_space(b),
{
    b == 32 || b == 9 || b == 10 || b == 11 || b == 12 || b == 13
}

/// The bytes of the `buffer` keyword.
pub open spec fn buffer_kw() -> Seq<u8> {
    seq![0x62u8, 0x75u8, 0x66u8, 0x66u8, 0x65u8, 0x72u8]
}

/// The bytes of the `readonly` qualifier.
pub open spec fn readonly_kw() -> Seq<u8> {
    seq![0x72u8, 0x65u8, 0x61u8, 0x64u8, 0x6fu8, 0x6eu8, 0x6cu8, 0x79u8]
}

/// Whether `pat` occurs in `content` starting at position `i`.
pub open spec fn matches_at(content: Seq<u8>, pat: Seq<u8>, i: int) -> bool {
    0 <= i && i + pat.len() <= content.len() && content.subrange(i, i + pat.len()) == pat
}

/// First position at or after `i` holding something other than
/// whitespace, or the end of the content.
pub open spec fn skip_spaces(content: Seq<u8>, i: int) -> int
    decreases content.len() - i,
    when 0 <= i <= content.len()
{
    if i == content.len() {
        i
    } else if is_space(content[i]) {
        skip_spaces(content, i + 1)
    } else {
        i
    }
}

/// First position at or after `i` holding whitespace or an opening
/// brace, or the end of the content when there is none.
pub open spec fn find_terminator(content: Seq<u8>, i: int) -> int
    decreases content.len() - i,
    when 0 <= i <= content.len()
{
    if i == content.len() {
        i
    } else if is_space(content[i]) || content[i] == 0x7b {
        i
    } else {
        find_terminator(content, i + 1)
    }
}

/// Start of the scan for qualifiers: the position of the last
/// semicolon before `i`, or the start of the content.
pub open spec fn last_semicolon(content: Seq<u8>, i: int) -> int
    decreases i,
    when 0 <= i <= content.len()
{
    if i == 0 {
        0
    } else if content[i - 1] == 0x3b {
        i - 1
    } else {
        last_semicolon(content, i - 1)
    }
}

/// Whether the whitespace-separated tokens of `content[lo..hi]`
/// include one equal to `tok`: some maximal run of non-space bytes in
/// that window is exactly `tok`.
pub open spec fn token_in(content: Seq<u8>, lo: int, hi: int, tok: Seq<u8>) -> bool {
    exists|a: int|
        lo <= a && a + tok.len() <= hi && #[trigger] content.subrange(a, a + tok.len()) == tok && (
        a == lo || is_space(content[a - 1])) && (a + tok.len() == hi || is_space(
            content[a + tok.len()],
        ))
}

/// The scan from position `i` on: at each occurrence of the `buffer`
/// keyword, read one token ahead; if that token is the block's name,
/// the answer is whether a `readonly` token stands between the end of
/// the previous declaration and the keyword.  Without a match the
/// answer is no.
pub open spec fn readonly_from(name: Seq<u8>, content: Seq<u8>, i: int) -> bool
    decreases content.len() - i,
    when 0 <= i <= content.len()
{
    if i + buffer_kw().len() > content.len() {
        false
    } else if matches_at(content, buffer_kw(), i) {
        let j = skip_spaces(content, i + buffer_kw().len());
        let t = find_terminator(content, j);
        if t == content.len() {
            readonly_from(name, content, i + 1)
        } else if content.subrange(j, t) == name {
            token_in(content, last_semicolon(content, i), i, readonly_kw())
        } else {
            readonly_from(name, content, i + 1)
        }
    } else {
        readonly_from(name, content, i + 1)
    }
}

/// Whether the storage block of the given name is declared with the
/// `readonly` qualifier, going by the first `buffer` keyword whose
/// following token is the name.
pub open spec fn spec_block_readonly(name: Seq<u8>, content: Seq<u8>) -> bool {
    readonly_from(name, content, 0)
}

fn matches_buffer_at(content: &Vec<u8>, i: usize) -> (out: bool)
    requires
        i + 6 <= content@.len(),
    ensures
        out == matches_at(content@, buffer_kw(), i as int),
{
    let n = content.len();
    let out = content[i] == 0x62 && content[i + 1] == 0x75 && content[i + 2] == 0x66 && content[i
        + 3] == 0x66 && content[i + 4] == 0x65 && content[i + 5] == 0x72;
    proof {
        if out {
            assert(content@.subrange(i as int, i + 6) =~= buffer_kw());
        } else {
            if content@.subrange(i as int, i + 6) == buffer_kw() {
                assert(content@[i as int] == buffer_kw()[0]);
                assert(content@[i + 1] == buffer_kw()[1]);
                assert(content@[i + 2] == buffer_kw()[2]);
                assert(content@[i + 3] == buffer_kw()[3]);
                assert(content@[i + 4] == buffer_kw()[4]);
                assert(content@[i + 5] == buffer_kw()[5]);
            }
        }
    }
    out
}

fn readonly_at(content: &Vec<u8>, a: usize) -> (out: bool)
    requires
        a + 8 <= content@.len(),
    ensures
        out == (content@.subrange(a as int, a + 8) == readonly_kw()),
{
    let n = content.len();
    let out = content[a] == 0x72 && content[a + 1] == 0x65 && content[a + 2] == 0x61 && content[a
        + 3] == 0x64 && content[a + 4] == 0x6f && content[a + 5] == 0x6e && content[a + 6] == 0x6c
        && content[a + 7] == 0x79;
    proof {
        if out {
            assert(content@.subrange(a as int, a + 8) =~= readonly_kw());
        } else {
            if content@.subrange(a as int, a + 8) == readonly_kw() {
                assert(content@[a as int] == readonly_kw()[0]);
                assert(content@[a + 1] == readonly_kw()[1]);
                assert(content@[a + 2] == readonly_kw()[2]);
                assert(content@[a + 3] == readonly_kw()[3]);
                assert(content@[a + 4] == readonly_kw()[4]);
                assert(content@[a + 5] == readonly_kw()[5]);
                assert(content@[a + 6] == readonly_kw()[6]);
                assert(content@[a + 7] == readonly_kw()[7]);
            }
        }
    }
    out
}

fn skip_spaces_from(content: &Vec<u8>, start: usize) -> (out: usize)
    requires
        start <= content@.len(),
    ensures
        out == skip_spaces(content@, start as int),
        start <= out <= content@.len(),
{
    let mut i = start;
    #[verifier::loop_isolation(false)]
    while i < content.len() && is_space_byte(content[i])
        invariant
            start <= i <= content@.len(),
            skip_spaces(content@, start as int) == skip_spaces(content@, i as int),
        decreases content@.len() - i,
    {
        i += 1;
    }
    i
}

fn find_terminator_from(content: &Vec<u8>, start: usize) -> (out: usize)
    requires
        start <= content@.len(),
    ensures
        out == find_terminator(content@, start as int),
        start <= out <= content@.len(),
{
    let mut i = start;
    #[verifier::loop_isolation(false)]
    while i < content.len() && !(is_space_byte(content[i]) || content[i] == 0x7b)
        invariant
            start <= i <= content@.len(),
            find_terminator(content@, start as int) == find_terminator(content@, i as int),
        decreases content@.len() - i,
    {
        i += 1;
    }
    i
}

fn last_semicolon_before(content: &Vec<u8>, end: usize) -> (out: usize)
    requires
        end <= content@.len(),
    ensures
        out == last_semicolon(content@, end as int),
        out <= end,
{
    let mut i = end;
    #[verifier::loop_isolation(false)]
    while i > 0 && content[i - 1] != 0x3b
        invariant
            i <= end,
            last_semicolon(content@, end as int) == last_semicolon(content@, i as int),
        decreases i,
    {
        i -= 1;
    }
    if i == 0 {
        0
    } else {
        i - 1
    }
}

fn range_equals(content: &Vec<u8>, lo: usize, hi: usize, name: &Vec<u8>) -> (out: bool)
    requires
        lo <= hi <= content@.len(),
    ensures
        out == (content@.subrange(lo as int, hi as int) == name@),
{
    if hi - lo != name.len() {
        proof {
            if content@.subrange(lo as int, hi as int) == name@ {
                assert(content@.subrange(lo as int, hi as int).len() == name@.len());
            }
        }
        return false;
    }
    let len = name.len();
    let mut k: usize = 0;
    #[verifier::loop_isolation(false)]
    while k < len
        invariant
            k <= len,
            forall|j: int| 0 <= j < k ==> content@[lo + j] == name@[j],
        decreases len - k,
    {
        if content[lo + k] != name[k] {
            proof {
                if content@.subrange(lo as int, hi as int) == name@ {
                    assert(content@.subrange(lo as int, hi as int)[k as int] == name@[k as int]);
                }
            }
            return false;
        }
        k += 1;
    }
    proof {
        assert(content@.subrange(lo as int, hi as int) =~= name@);
    }
    true
}

/// Whether a `readonly` token stands in `content[lo..hi]`.
fn window_has_readonly(content: &Vec<u8>, lo: usize, hi: usize) -> (out: bool)
    requires
        lo <= hi <= content@.len(),
    ensures
        out == token_in(content@, lo as int, hi as int, readonly_kw()),
{
    proof {
        assert(readonly_kw().len() == 8);
    }
    let mut a = lo;
    #[verifier::loop_isolation(false)]
    while hi >= 8 && a <= hi - 8
        invariant
            lo <= a,
            hi <= content@.len(),
            forall|a2: int|
                lo <= a2 < a ==> !(a2 + 8 <= hi && #[trigger] content@.subrange(a2, a2 + 8)
                    == readonly_kw() && (a2 == lo || is_space(content@[a2 - 1])) && (a2 + 8 == hi
                    || is_space(content@[a2 + 8]))),
        decreases hi - a,
    {
        let starts_token = a == lo || is_space_byte(content[a - 1]);
        if starts_token && readonly_at(content, a) {
            let ends_token = a + 8 == hi || is_space_byte(content[a + 8]);
            if ends_token {
                proof {
                    assert(lo <= a as int && a + 8 <= hi && content@.subrange(a as int, a + 8)
                        == readonly_kw() && (a as int == lo || is_space(content@[a - 1])) && (a + 8
                        == hi || is_space(content@[a + 8])));
                }
                return true;
            }
        }
        a += 1;
    }
    proof {
        if token_in(content@, lo as int, hi as int, readonly_kw()) {
            let a2 = choose|a2: int|
                lo <= a2 && a2 + 8 <= hi && #[trigger] content@.subrange(a2, a2 + 8)
                    == readonly_kw() && (a2 == lo || is_space(content@[a2 - 1])) && (a2 + 8 == hi
                    || is_space(content@[a2 + 8]));
            assert(a2 < a);
            assert(false);
        }
    }
    false
}

/// Whether the storage block named `name` is declared `readonly` in
/// the shader source `content`.  The GPU interface does not report
/// storage qualifiers, so the source text itself is consulted: the
/// token after the introducing `buffer` keyword must be the block
/// name, and the qualifier is searched between the end of the previous
/// declaration and that keyword.
pub fn buffer_block_has_readonly_keyword(name: &Vec<u8>, content: &Vec<u8>) -> (out: bool)
    ensures
        out == spec_block_readonly(name@, content@),
{
    let n = content.len();
    let mut i: usize = 0;
    #[verifier::loop_isolation(false)]
    while n >= 6 && i <= n - 6
        invariant
            i <= n,
            n == content@.len(),
            readonly_from(name@, content@, 0) == readonly_from(name@, content@, i as int),
        decreases n - i,
    {
        if matches_buffer_at(content, i) {
            let j = skip_spaces_from(content, i + 6);
            let t = find_terminator_from(content, j);
            if t < n {
                if range_equals(content, j, t, name) {
                    let sb = last_semicolon_before(content, i);
                    return window_has_readonly(content, sb, i);
                }
            }
        }
        i += 1;
    }
    proof {
        assert(!readonly_from(name@, content@, i as int));
    }
    false
}

} // verus!

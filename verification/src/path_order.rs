//! The order of texts, and of paths by their components, which `/` alone separates.

use vstd::prelude::*;

use crate::text;

verus! {

broadcast use crate::text::group_views;

// ── Texts ────────────────────────────────────────────────────────────────────

/// Whether the bytes `a` come before the bytes `b` in a dictionary.
pub open spec fn bytes_before(a: Seq<u8>, b: Seq<u8>) -> bool
    decreases a.len(),
{
    if b.len() == 0 {
        false
    } else if a.len() == 0 {
        true
    } else if a[0] != b[0] {
        a[0] < b[0]
    } else {
        bytes_before(a.drop_first(), b.drop_first())
    }
}

/// Whether the text `a` comes before the text `b`, by their UTF-8 bytes.
pub open spec fn text_before(a: Seq<char>, b: Seq<char>) -> bool {
    bytes_before(vstd::utf8::encode_utf8(a), vstd::utf8::encode_utf8(b))
}

proof fn lemma_bytes_asymmetric(a: Seq<u8>, b: Seq<u8>)
    ensures
        !(bytes_before(a, b) && bytes_before(b, a)),
    decreases a.len(),
{
    if a.len() > 0 && b.len() > 0 {
        lemma_bytes_asymmetric(a.drop_first(), b.drop_first());
    }
}

proof fn lemma_bytes_between(a: Seq<u8>, b: Seq<u8>, c: Seq<u8>)
    requires
        bytes_before(a, c),
    ensures
        bytes_before(a, b) || bytes_before(b, c),
    decreases a.len(),
{
    if a.len() > 0 && b.len() > 0 && a[0] == c[0] && a[0] == b[0] {
        lemma_bytes_between(a.drop_first(), b.drop_first(), c.drop_first());
    }
}

/// Of two texts at most one comes before the other.
pub proof fn lemma_text_asymmetric(a: Seq<char>, b: Seq<char>)
    ensures
        !(text_before(a, b) && text_before(b, a)),
{
    lemma_bytes_asymmetric(vstd::utf8::encode_utf8(a), vstd::utf8::encode_utf8(b));
}

/// What comes before `c` comes before `b`, or else `b` comes before `c`.
pub proof fn lemma_text_between(a: Seq<char>, b: Seq<char>, c: Seq<char>)
    requires
        text_before(a, c),
    ensures
        text_before(a, b) || text_before(b, c),
{
    lemma_bytes_between(vstd::utf8::encode_utf8(a), vstd::utf8::encode_utf8(b), vstd::utf8::encode_utf8(c));
}

/// What comes before a text comes before what that text comes before.
pub proof fn lemma_text_transitive(a: Seq<char>, b: Seq<char>, c: Seq<char>)
    requires
        text_before(a, b),
        text_before(b, c),
    ensures
        text_before(a, c),
{
    lemma_text_between(a, c, b);
    lemma_text_asymmetric(b, c);
}

proof fn lemma_bytes_differ(a: Seq<u8>, b: Seq<u8>, k: int)
    requires
        0 <= k < a.len(),
        k < b.len(),
        forall|i: int| 0 <= i < k ==> a[i] == b[i],
        a[k] < b[k],
    ensures
        bytes_before(a, b),
    decreases k,
{
    if k > 0 {
        assert(a[0] == b[0]);
        lemma_bytes_differ(a.drop_first(), b.drop_first(), k - 1);
    }
}

/// Of two ASCII texts that differ first at `k`, the one with the lower character there
/// comes first.
pub proof fn lemma_ascii_differ(a: Seq<char>, b: Seq<char>, k: int)
    requires
        vstd::utf8::is_ascii_chars(a),
        vstd::utf8::is_ascii_chars(b),
        0 <= k < a.len(),
        k < b.len(),
        forall|i: int| 0 <= i < k ==> a[i] == b[i],
        a[k] < b[k],
    ensures
        text_before(a, b),
{
    vstd::utf8::is_ascii_chars_encode_utf8(a);
    vstd::utf8::is_ascii_chars_encode_utf8(b);
    let x = vstd::utf8::encode_utf8(a);
    let y = vstd::utf8::encode_utf8(b);
    assert forall|i: int| 0 <= i < k implies x[i] == y[i] by {
        assert(a[i] == b[i]);
    }
    lemma_bytes_differ(x, y, k);
}

pub fn text_is_before(a: &str, b: &str) -> (r: bool)
    ensures
        r == text_before(a@, b@),
{
    let x: &[u8] = a.as_bytes();
    let y: &[u8] = b.as_bytes();
    let mut i: usize = 0;
    assert(x@.skip(0) =~= x@);
    assert(y@.skip(0) =~= y@);
    loop
        invariant
            i <= x@.len(),
            i <= y@.len(),
            bytes_before(x@, y@) == bytes_before(x@.skip(i as int), y@.skip(i as int)),
            x@ == vstd::utf8::encode_utf8(a@),
            y@ == vstd::utf8::encode_utf8(b@),
        decreases x@.len() - i,
    {
        if i == y.len() {
            return false;
        }
        if i == x.len() {
            return true;
        }
        if x[i] != y[i] {
            return x[i] < y[i];
        }
        assert(x@.skip(i as int).drop_first() =~= x@.skip(i + 1));
        assert(y@.skip(i as int).drop_first() =~= y@.skip(i + 1));
        i += 1;
    }
}

// ── Paths ────────────────────────────────────────────────────────────────────

/// The place of the first slash at or after `from`.
pub open spec fn segment_end(s: Seq<char>, from: int) -> int
    decreases s.len() - from,
{
    if from < 0 || from >= s.len() || s[from] == '/' {
        from
    } else {
        segment_end(s, from + 1)
    }
}

proof fn lemma_segment_end(s: Seq<char>, from: int)
    requires
        0 <= from,
    ensures
        from <= segment_end(s, from),
        from <= s.len() ==> segment_end(s, from) <= s.len(),
    decreases s.len() - from,
{
    if from < s.len() && s[from] != '/' {
        lemma_segment_end(s, from + 1);
    }
}

/// The names between the slashes of `s`, from the character at `from` on, without empty
/// names and without `.`.
pub open spec fn names_from(s: Seq<char>, from: int) -> Seq<Seq<char>>
    decreases s.len() - from,
    when 0 <= from
    via names_from_decreases
{
    if from >= s.len() {
        Seq::empty()
    } else {
        let end = segment_end(s, from);
        let name = s.subrange(from, end);
        let rest = if end >= s.len() {
            Seq::empty()
        } else {
            names_from(s, end + 1)
        };
        if name.len() == 0 || name == "."@ {
            rest
        } else {
            seq![name] + rest
        }
    }
}

#[via_fn]
proof fn names_from_decreases(s: Seq<char>, from: int) {
    lemma_segment_end(s, from);
}

/// What a path starts with: the root, the current directory, or nothing of its own.
pub open spec fn path_start(s: Seq<char>) -> Seq<Seq<char>> {
    if s.len() > 0 && s[0] == '/' {
        seq!["/"@]
    } else if s.subrange(0, segment_end(s, 0)) == "."@ {
        seq!["."@]
    } else {
        Seq::empty()
    }
}

/// The components of a path: its start, and its names.
pub open spec fn components(s: Seq<char>) -> Seq<Seq<char>> {
    path_start(s) + names_from(s, 0)
}

/// The root comes before the current directory, that before the parent directory, and
/// that before any name.
pub open spec fn component_rank(c: Seq<char>) -> int {
    if c == "/"@ {
        0
    } else if c == "."@ {
        1
    } else if c == ".."@ {
        2
    } else {
        3
    }
}

pub open spec fn component_before(a: Seq<char>, b: Seq<char>) -> bool {
    if component_rank(a) != component_rank(b) {
        component_rank(a) < component_rank(b)
    } else {
        text_before(a, b)
    }
}

/// Whether the components `a` come before the components `b` in a dictionary.
pub open spec fn components_before(a: Seq<Seq<char>>, b: Seq<Seq<char>>) -> bool
    decreases a.len(),
{
    if b.len() == 0 {
        false
    } else if a.len() == 0 {
        true
    } else if component_before(a[0], b[0]) {
        true
    } else if component_before(b[0], a[0]) {
        false
    } else {
        components_before(a.drop_first(), b.drop_first())
    }
}

/// Whether the path `a` comes before the path `b`.
pub open spec fn path_before(a: Seq<char>, b: Seq<char>) -> bool {
    components_before(components(a), components(b))
}

proof fn lemma_component_asymmetric(a: Seq<char>, b: Seq<char>)
    ensures
        !(component_before(a, b) && component_before(b, a)),
{
    lemma_text_asymmetric(a, b);
}

proof fn lemma_component_between(a: Seq<char>, b: Seq<char>, c: Seq<char>)
    requires
        component_before(a, c),
    ensures
        component_before(a, b) || component_before(b, c),
{
    if component_rank(a) == component_rank(c) && component_rank(a) == component_rank(b) {
        lemma_text_between(a, b, c);
    }
}

proof fn lemma_components_asymmetric(a: Seq<Seq<char>>, b: Seq<Seq<char>>)
    ensures
        !(components_before(a, b) && components_before(b, a)),
    decreases a.len(),
{
    if a.len() > 0 && b.len() > 0 {
        lemma_component_asymmetric(a[0], b[0]);
        lemma_components_asymmetric(a.drop_first(), b.drop_first());
    }
}

proof fn lemma_components_between(a: Seq<Seq<char>>, b: Seq<Seq<char>>, c: Seq<Seq<char>>)
    requires
        components_before(a, c),
    ensures
        components_before(a, b) || components_before(b, c),
    decreases a.len(),
{
    if a.len() > 0 && b.len() > 0 {
        let (x, y, z) = (a[0], b[0], c[0]);
        lemma_component_asymmetric(x, y);
        lemma_component_asymmetric(y, z);
        if component_before(x, z) {
            lemma_component_between(x, y, z);
            lemma_component_asymmetric(x, z);
        } else {
            if component_before(y, x) {
                lemma_component_between(y, z, x);
            }
            if component_before(z, y) {
                lemma_component_between(z, x, y);
            }
            lemma_components_between(a.drop_first(), b.drop_first(), c.drop_first());
        }
    }
}

/// Of two paths at most one comes before the other.
pub proof fn lemma_path_asymmetric(a: Seq<char>, b: Seq<char>)
    ensures
        !(path_before(a, b) && path_before(b, a)),
{
    lemma_components_asymmetric(components(a), components(b));
}

/// What comes before `c` comes before `b`, or else `b` comes before `c`.
pub proof fn lemma_path_between(a: Seq<char>, b: Seq<char>, c: Seq<char>)
    requires
        path_before(a, c),
    ensures
        path_before(a, b) || path_before(b, c),
{
    lemma_components_between(components(a), components(b), components(c));
}

fn components_text(s: &str) -> (r: Vec<String>)
    ensures
        text::views(r@) == components(s@),
{
    let chars = text::chars_of(s);
    let mut out: Vec<String> = Vec::new();
    let mut from: usize = 0;
    let ghost start = path_start(s@);
    proof {
        lemma_segment_end(s@, 0);
    }
    if chars.len() > 0 && chars[0] == '/' {
        out.push("/".to_owned());
        assert(text::views(out@) =~= start);
    } else if chars.len() > 0 && chars[0] == '.' && (chars.len() == 1 || chars[1] == '/') {
        out.push(".".to_owned());
        proof {
            reveal_strlit(".");
            reveal_with_fuel(segment_end, 3);
            assert(s@.subrange(0, segment_end(s@, 0)) =~= "."@);
        }
        assert(text::views(out@) =~= start);
    } else {
        proof {
            reveal_strlit(".");
            if s@.subrange(0, segment_end(s@, 0)) == "."@ {
                assert("."@.len() == 1 && "."@[0] == '.');
                assert(s@.subrange(0, segment_end(s@, 0)).len() == segment_end(s@, 0));
                assert(s@[0] == s@.subrange(0, 1)[0]);
                reveal_with_fuel(segment_end, 3);
                lemma_segment_end(s@, 2);
            }
        }
        assert(text::views(out@) =~= start);
    }
    assert(text::views(out@) + names_from(s@, 0) =~= components(s@));
    while from < chars.len()
        invariant
            chars@ == s@,
            text::views(out@) + names_from(s@, from as int) == components(s@),
        decreases chars.len() - from,
    {
        let mut end: usize = from;
        while end < chars.len() && chars[end] != '/'
            invariant
                chars@ == s@,
                from <= end <= chars@.len(),
                segment_end(s@, end as int) == segment_end(s@, from as int),
            decreases chars.len() - end,
        {
            end += 1;
        }
        let name = text::string_of(&chars, from, end);
        let ghost before = text::views(out@);
        let ghost rest = if end >= s@.len() {
            Seq::empty()
        } else {
            names_from(s@, end + 1)
        };
        if name.as_str().unicode_len() > 0 && !text::same_text(name.as_str(), ".") {
            out.push(name);
            assert(before + (seq![name@] + rest) =~= before.push(name@) + rest);
        }
        from = if end < chars.len() {
            end + 1
        } else {
            end
        };
        assert(names_from(s@, from as int) == rest);
    }
    assert(text::views(out@) + names_from(s@, from as int) =~= text::views(out@));
    out
}

fn rank_of(c: &str) -> (r: u8)
    ensures
        r == component_rank(c@),
{
    if text::same_text(c, "/") {
        0
    } else if text::same_text(c, ".") {
        1
    } else if text::same_text(c, "..") {
        2
    } else {
        3
    }
}

fn component_is_before(a: &str, b: &str) -> (r: bool)
    ensures
        r == component_before(a@, b@),
{
    let x: u8 = rank_of(a);
    let y: u8 = rank_of(b);
    if x != y {
        x < y
    } else {
        text_is_before(a, b)
    }
}

pub fn path_is_before(a: &str, b: &str) -> (r: bool)
    ensures
        r == path_before(a@, b@),
{
    let x = components_text(a);
    let y = components_text(b);
    let ghost p = components(a@);
    let ghost q = components(b@);
    let mut i: usize = 0;
    assert(p.skip(0) =~= p);
    assert(q.skip(0) =~= q);
    loop
        invariant
            p == text::views(x@),
            q == text::views(y@),
            p == components(a@),
            q == components(b@),
            i <= x@.len(),
            i <= y@.len(),
            components_before(p, q) == components_before(p.skip(i as int), q.skip(i as int)),
        decreases x@.len() - i,
    {
        if i == y.len() {
            return false;
        }
        if i == x.len() {
            return true;
        }
        assert(p.skip(i as int)[0] == x@[i as int]@);
        assert(q.skip(i as int)[0] == y@[i as int]@);
        if component_is_before(x[i].as_str(), y[i].as_str()) {
            return true;
        }
        if component_is_before(y[i].as_str(), x[i].as_str()) {
            return false;
        }
        assert(p.skip(i as int).drop_first() =~= p.skip(i + 1));
        assert(q.skip(i as int).drop_first() =~= q.skip(i + 1));
        i += 1;
    }
}

} // verus!

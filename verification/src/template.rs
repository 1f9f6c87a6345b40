//! The route template language.
//!
//! A template is a path such as `/api/v1/foo/<int:foo_id>`. It is read as a list
//! of segments between slashes; empty segments count for nothing. A segment of
//! the form `<name>` or `<type:name>` is a placeholder, every other segment is
//! literal text.

use crate::matcher::{is_word_char, word_char};
use crate::text::chars_of;
use vstd::prelude::*;

verus! {

/// The types of parameter that a placeholder can ask for.
#[derive(PartialEq, Eq, Structural, Hash, Debug, Copy, Clone)]
pub enum ParamType {
    Integer,
    Unsigned,
    String,
    Float,
    Path,
}

/// The keyword that selects a parameter type in a template.
pub open spec fn keyword(ptype: ParamType) -> Seq<char> {
    match ptype {
        ParamType::Integer => "int"@,
        ParamType::Unsigned => "uint"@,
        ParamType::String => "str"@,
        ParamType::Float => "float"@,
        ParamType::Path => "path"@,
    }
}

/// The characters that a parameter name goes on with: ASCII letters, digits
/// and the underscore.
pub open spec fn is_name_char(c: char) -> bool {
    ('a' <= c && c <= 'z') || ('A' <= c && c <= 'Z') || ('0' <= c && c <= '9') || c == '_'
}

/// The characters that a parameter name starts with: those that it goes on
/// with, and beyond ASCII every word character of any script.
pub open spec fn is_name_start(c: char) -> bool {
    is_name_char(c) || (c as u32 > 127 && is_word_char(c))
}

/// A parameter name: a character that a name starts with, and name
/// characters after it.
pub open spec fn is_name(s: Seq<char>) -> bool {
    &&& s.len() > 0
    &&& is_name_start(s[0])
    &&& forall|i: int| 1 <= i < s.len() ==> is_name_char(#[trigger] s[i])
}

/// `inner` is the keyword `kw`, a colon and a name.
pub open spec fn is_typed(inner: Seq<char>, kw: Seq<char>) -> bool {
    &&& inner.len() > kw.len() + 1
    &&& inner.take(kw.len() as int) == kw
    &&& inner[kw.len() as int] == ':'
    &&& is_name(inner.skip(kw.len() as int + 1))
}

/// What stands between the angle brackets of a placeholder, read as a type and
/// a name. A missing type means `String`.
pub open spec fn typed_name(inner: Seq<char>) -> Option<(ParamType, Seq<char>)> {
    if is_typed(inner, keyword(ParamType::Integer)) {
        Some((ParamType::Integer, inner.skip(keyword(ParamType::Integer).len() as int + 1)))
    } else if is_typed(inner, keyword(ParamType::Unsigned)) {
        Some((ParamType::Unsigned, inner.skip(keyword(ParamType::Unsigned).len() as int + 1)))
    } else if is_typed(inner, keyword(ParamType::String)) {
        Some((ParamType::String, inner.skip(keyword(ParamType::String).len() as int + 1)))
    } else if is_typed(inner, keyword(ParamType::Float)) {
        Some((ParamType::Float, inner.skip(keyword(ParamType::Float).len() as int + 1)))
    } else if is_typed(inner, keyword(ParamType::Path)) {
        Some((ParamType::Path, inner.skip(keyword(ParamType::Path).len() as int + 1)))
    } else if is_name(inner) {
        Some((ParamType::String, inner))
    } else {
        None
    }
}

/// The placeholder that a segment spells, if it spells one.
pub open spec fn placeholder(segment: Seq<char>) -> Option<(ParamType, Seq<char>)> {
    if segment.len() >= 2 && segment.first() == '<' && segment.last() == '>' {
        typed_name(segment.subrange(1, segment.len() - 1))
    } else {
        None
    }
}

/// The length of the longest prefix of `s` without a slash.
pub open spec fn segment_len(s: Seq<char>) -> int
    decreases s.len(),
{
    if s.len() == 0 || s[0] == '/' {
        0
    } else {
        1 + segment_len(s.skip(1))
    }
}

/// The non-empty segments of a template, in order.
pub open spec fn segments(template: Seq<char>) -> Seq<Seq<char>>
    decreases template.len(),
{
    if template.len() == 0 {
        Seq::empty()
    } else if template[0] == '/' {
        segments(template.skip(1))
    } else {
        let n = segment_len(template);
        if 0 < n <= template.len() {
            seq![template.take(n)] + segments(template.skip(n))
        } else {
            Seq::empty()
        }
    }
}

/// A prefix of `s` that holds no slash and ends at a slash or at the end of `s`
/// is the first segment of `s`.
pub proof fn lemma_segment_len(s: Seq<char>, n: int)
    requires
        0 <= n <= s.len(),
        forall|i: int| 0 <= i < n ==> s[i] != '/',
        n == s.len() || s[n] == '/',
    ensures
        segment_len(s) == n,
    decreases s.len(),
{
    if n > 0 {
        let rest = s.skip(1);
        assert forall|i: int| 0 <= i < n - 1 implies rest[i] != '/' by {
            assert(rest[i] == s[i + 1]);
        }
        lemma_segment_len(rest, n - 1);
    }
}

/// The index of the first slash at or after `from`, or the length of `chars`.
pub fn segment_end(chars: &Vec<char>, from: usize) -> (end: usize)
    requires
        from <= chars.len(),
    ensures
        from <= end <= chars.len(),
        end - from == segment_len(chars@.skip(from as int)),
        from < chars.len() && chars[from as int] != '/' ==> from < end,
{
    let mut end: usize = from;
    while end < chars.len() && chars[end] != '/'
        invariant
            from <= end <= chars.len(),
            forall|i: int| from <= i < end ==> chars@[i] != '/',
        decreases chars.len() - end,
    {
        end += 1;
    }
    proof {
        let s = chars@.skip(from as int);
        assert forall|i: int| 0 <= i < end - from implies s[i] != '/' by {
            assert(s[i] == chars@[from + i]);
        }
        lemma_segment_len(s, end - from);
    }
    end
}

/// Whether `c` is a name character.
pub fn name_char(c: char) -> (r: bool)
    ensures
        r == is_name_char(c),
{
    ('a' <= c && c <= 'z') || ('A' <= c && c <= 'Z') || ('0' <= c && c <= '9') || c == '_'
}

/// Whether `chars[from..to]` is a parameter name.
pub fn is_name_at(chars: &Vec<char>, from: usize, to: usize) -> (r: bool)
    requires
        from <= to <= chars.len(),
    ensures
        r == is_name(chars@.subrange(from as int, to as int)),
{
    if from == to {
        return false;
    }
    let ghost s = chars@.subrange(from as int, to as int);
    let first = chars[from];
    assert(s[0] == first);
    if !(name_char(first) || (first as u32 > 127 && word_char(first))) {
        return false;
    }
    let mut i: usize = from + 1;
    while i < to
        invariant
            from < i <= to <= chars.len(),
            s == chars@.subrange(from as int, to as int),
            forall|k: int| 1 <= k < i - from ==> is_name_char(#[trigger] s[k]),
        decreases to - i,
    {
        if !name_char(chars[i]) {
            assert(s[i - from] == chars[i as int]);
            return false;
        }
        i += 1;
    }
    true
}

/// The keyword that selects a parameter type in a template.
pub fn keyword_of(ptype: ParamType) -> (kw: &'static str)
    ensures
        kw@ == keyword(ptype),
{
    match ptype {
        ParamType::Integer => "int",
        ParamType::Unsigned => "uint",
        ParamType::String => "str",
        ParamType::Float => "float",
        ParamType::Path => "path",
    }
}

/// Reads `chars[from..to]` as the keyword of `ptype`, a colon and a name, and
/// gives the index at which the name starts.
pub fn typed_at(chars: &Vec<char>, from: usize, to: usize, ptype: ParamType) -> (r: Option<usize>)
    requires
        from <= to <= chars.len(),
    ensures
        r is Some <==> is_typed(chars@.subrange(from as int, to as int), keyword(ptype)),
        r matches Some(start) ==> from < start < to && chars@.subrange(start as int, to as int)
            == chars@.subrange(from as int, to as int).skip(keyword(ptype).len() as int + 1),
{
    let word = chars_of(keyword_of(ptype));
    let ghost kw = keyword(ptype);
    let ghost inner = chars@.subrange(from as int, to as int);
    if to - from <= word.len() || to - from - word.len() <= 1 {
        return None;
    }
    let mut i: usize = 0;
    while i < word.len()
        invariant
            from <= to <= chars.len(),
            to - from > word.len() + 1,
            0 <= i <= word.len(),
            word@ == kw,
            kw == keyword(ptype),
            inner == chars@.subrange(from as int, to as int),
            forall|k: int| 0 <= k < i ==> inner[k] == word@[k],
        decreases word.len() - i,
    {
        if chars[from + i] != word[i] {
            assert(inner.take(kw.len() as int)[i as int] == inner[i as int]);
            return None;
        }
        i += 1;
    }
    assert(inner.take(kw.len() as int) =~= kw);
    if chars[from + word.len()] != ':' {
        return None;
    }
    let start = from + word.len() + 1;
    assert(inner.skip(kw.len() as int + 1) =~= chars@.subrange(start as int, to as int));
    if is_name_at(chars, start, to) {
        Some(start)
    } else {
        None
    }
}

/// Reads `chars[from..to]` as a placeholder. The name of the placeholder found
/// is `chars[start..to - 1]`, where `start` is the index returned.
pub fn placeholder_at(chars: &Vec<char>, from: usize, to: usize) -> (r: Option<(ParamType, usize)>)
    requires
        from <= to <= chars.len(),
    ensures
        match placeholder(chars@.subrange(from as int, to as int)) {
            Some((ptype, name)) => r matches Some((t, start)) && t == ptype && from < start < to
                && name == chars@.subrange(start as int, to - 1),
            None => r is None,
        },
{
    let ghost segment = chars@.subrange(from as int, to as int);
    if to - from < 2 || chars[from] != '<' || chars[to - 1] != '>' {
        return None;
    }
    let a = from + 1;
    let b = to - 1;
    assert(segment.subrange(1, segment.len() - 1) =~= chars@.subrange(a as int, b as int));
    if let Some(start) = typed_at(chars, a, b, ParamType::Integer) {
        return Some((ParamType::Integer, start));
    }
    if let Some(start) = typed_at(chars, a, b, ParamType::Unsigned) {
        return Some((ParamType::Unsigned, start));
    }
    if let Some(start) = typed_at(chars, a, b, ParamType::String) {
        return Some((ParamType::String, start));
    }
    if let Some(start) = typed_at(chars, a, b, ParamType::Float) {
        return Some((ParamType::Float, start));
    }
    if let Some(start) = typed_at(chars, a, b, ParamType::Path) {
        return Some((ParamType::Path, start));
    }
    if is_name_at(chars, a, b) {
        return Some((ParamType::String, a));
    }
    None
}

} // verus!

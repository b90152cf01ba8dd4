//! The type-signature parser.
//!
//! A raw signature such as `Vec<Option<String>>` is split at the angle
//! brackets that stand at nesting depth zero, the recognized wrapper
//! forms `Vec<..>` and `Option<..>` are unwrapped recursively, and every
//! other text becomes a primitive scalar or an opaque reference.
//! Signatures whose brackets never close signal [`SchemaError::MalformedSignature`].

use vstd::prelude::*;

use crate::classify::into_json_type;
use crate::classify::spec_classify;
use crate::classify::str_eq;
use crate::types::LeafModel;
use crate::types::Type;
use crate::types::TypeModel;
use crate::types::WrapKind;
use crate::types::wf_model;

verus! {

/// The parser's error: the brackets of a signature never return to
/// nesting depth zero.
#[derive(Debug, Clone, Copy, PartialEq, Eq)]
pub enum SchemaError {
    MalformedSignature,
}

/// The characters stripped from the ends of the signature and of every
/// token.
pub open spec fn is_space_char(c: char) -> bool {
    c == ' ' || c == '\t' || c == '\n' || c == '\r'
}

/// The sequence without its leading whitespace.
pub open spec fn spec_trim_front(s: Seq<char>) -> Seq<char>
    decreases s.len(),
{
    if s.len() > 0 && is_space_char(s[0]) {
        spec_trim_front(s.drop_first())
    } else {
        s
    }
}

/// The sequence without its trailing whitespace.
pub open spec fn spec_trim_back(s: Seq<char>) -> Seq<char>
    decreases s.len(),
{
    if s.len() > 0 && is_space_char(s.last()) {
        spec_trim_back(s.drop_last())
    } else {
        s
    }
}

/// The sequence without its surrounding whitespace.
pub open spec fn spec_trim(s: Seq<char>) -> Seq<char> {
    spec_trim_back(spec_trim_front(s))
}

/// When the first `i` characters are whitespace and the one after them,
/// if any, is not, trimming the front keeps exactly the suffix from `i`.
proof fn lemma_trim_front_skip(s: Seq<char>, i: int)
    requires
        0 <= i <= s.len(),
        forall|j: int| 0 <= j < i ==> is_space_char(#[trigger] s[j]),
        i < s.len() ==> !is_space_char(s[i]),
    ensures
        spec_trim_front(s) == s.subrange(i, s.len() as int),
    decreases i,
{
    if i == 0 {
        assert(s.subrange(0, s.len() as int) =~= s);
    } else {
        lemma_trim_front_skip(s.drop_first(), i - 1);
        assert(s.drop_first().subrange(i - 1, s.drop_first().len() as int) =~= s.subrange(
            i,
            s.len() as int,
        ));
    }
}

/// When the characters from `e` on are whitespace and the one before
/// them, if any, is not, trimming the back keeps exactly the prefix up
/// to `e`.
proof fn lemma_trim_back_keep(s: Seq<char>, e: int)
    requires
        0 <= e <= s.len(),
        forall|j: int| e <= j < s.len() ==> is_space_char(#[trigger] s[j]),
        e > 0 ==> !is_space_char(s[e - 1]),
    ensures
        spec_trim_back(s) == s.subrange(0, e),
    decreases s.len() - e,
{
    if e == s.len() {
        if s.len() > 0 {
            assert(!is_space_char(s.last()));
        }
        assert(s.subrange(0, s.len() as int) =~= s);
    } else {
        lemma_trim_back_keep(s.drop_last(), e);
        assert(s.drop_last().subrange(0, e) =~= s.subrange(0, e));
    }
}

/// Trimming never lengthens a sequence.
proof fn lemma_trim_le(s: Seq<char>)
    ensures
        spec_trim(s).len() <= s.len(),
{
    lemma_trim_front_le(s);
    lemma_trim_back_le(spec_trim_front(s));
}

proof fn lemma_trim_front_le(s: Seq<char>)
    ensures
        spec_trim_front(s).len() <= s.len(),
    decreases s.len(),
{
    if s.len() > 0 && is_space_char(s[0]) {
        lemma_trim_front_le(s.drop_first());
    }
}

proof fn lemma_trim_back_le(s: Seq<char>)
    ensures
        spec_trim_back(s).len() <= s.len(),
    decreases s.len(),
{
    if s.len() > 0 && is_space_char(s.last()) {
        lemma_trim_back_le(s.drop_last());
    }
}

/// Whether `c` is a whitespace character the trimmer strips.
fn is_space(c: char) -> (r: bool)
    ensures
        r == is_space_char(c),
{
    c == ' ' || c == '\t' || c == '\n' || c == '\r'
}

/// The slice without its surrounding whitespace.
pub fn trim_str(s: &str) -> (r: &str)
    ensures
        r@ == spec_trim(s@),
{
    let n = s.unicode_len();
    let mut start: usize = 0;
    while start < n && is_space(s.get_char(start))
        invariant
            n == s@.len(),
            start <= n,
            forall|j: int| 0 <= j < start ==> is_space_char(#[trigger] s@[j]),
        decreases n - start,
    {
        start += 1;
    }
    let mut end: usize = n;
    while end > start && is_space(s.get_char(end - 1))
        invariant
            n == s@.len(),
            start <= end <= n,
            forall|j: int| end <= j < n ==> is_space_char(#[trigger] s@[j]),
        decreases end,
    {
        end -= 1;
    }
    proof {
        lemma_trim_front_skip(s@, start as int);
        let front = s@.subrange(start as int, n as int);
        lemma_trim_back_keep(front, end - start);
        assert(front.subrange(0, end - start) =~= s@.subrange(start as int, end as int));
    }
    s.substring_char(start, end)
}

/// Whether the character at nesting depth `depth` splits the signature:
/// a `<` met at depth zero or a `>` that returns the depth to zero.
pub open spec fn sep_here(c: char, depth: int) -> bool {
    (c == '<' && depth == 0) || (c == '>' && depth == 1)
}

/// The nesting depth after reading `c` at depth `depth`.
pub open spec fn next_depth(c: char, depth: int) -> int {
    if c == '<' {
        depth + 1
    } else if c == '>' {
        depth - 1
    } else {
        depth
    }
}

/// The tokens of the suffix of `s` from position `i`, read at nesting
/// depth `depth`: the text between consecutive depth-zero brackets, the
/// brackets themselves dropped.
pub open spec fn split_from(s: Seq<char>, i: int, depth: int) -> Seq<Seq<char>>
    decreases s.len() - i,
{
    if i < 0 || i >= s.len() {
        seq![Seq::<char>::empty()]
    } else {
        let rest = split_from(s, i + 1, next_depth(s[i], depth));
        if sep_here(s[i], depth) {
            seq![Seq::<char>::empty()] + rest
        } else {
            rest.update(0, seq![s[i]] + rest[0])
        }
    }
}

/// A split yields at least one token.
proof fn lemma_split_nonempty(s: Seq<char>, i: int, depth: int)
    ensures
        split_from(s, i, depth).len() >= 1,
    decreases s.len() - i,
{
    if 0 <= i < s.len() {
        lemma_split_nonempty(s, i + 1, next_depth(s[i], depth));
    }
}

/// Each token fits in the text it was cut from: the token at position
/// `k` is preceded by `k` separator characters, so its length plus `k`
/// is at most the length of the suffix that was split.
proof fn lemma_split_token_bound(s: Seq<char>, i: int, depth: int)
    requires
        0 <= i <= s.len(),
    ensures
        forall|k: int|
            0 <= k < split_from(s, i, depth).len() ==> #[trigger] split_from(s, i, depth)[k].len()
                + k <= s.len() - i,
    decreases s.len() - i,
{
    lemma_split_nonempty(s, i, depth);
    if i < s.len() {
        lemma_split_token_bound(s, i + 1, next_depth(s[i], depth));
        lemma_split_nonempty(s, i + 1, next_depth(s[i], depth));
    }
}

/// The first position at or after `i` whose character returns the
/// nesting depth to zero, reading from depth `depth`; the text's length
/// when the depth never returns to zero.
pub open spec fn close_pos(s: Seq<char>, i: int, depth: int) -> int
    decreases s.len() - i,
{
    if i < 0 || i >= s.len() {
        s.len() as int
    } else if s[i] == '>' && depth == 1 {
        i
    } else {
        close_pos(s, i + 1, next_depth(s[i], depth))
    }
}

proof fn lemma_close_pos_bounds(s: Seq<char>, i: int, depth: int)
    requires
        0 <= i <= s.len(),
    ensures
        i <= close_pos(s, i, depth) <= s.len(),
    decreases s.len() - i,
{
    if i < s.len() && !(s[i] == '>' && depth == 1) {
        lemma_close_pos_bounds(s, i + 1, next_depth(s[i], depth));
    }
}

/// Whether the scan from position `i` at depth `depth` meets a `<` at
/// depth zero after which the depth counter never returns to zero: the
/// bracket that never closes.
pub open spec fn has_unclosed(s: Seq<char>, i: int, depth: int) -> bool
    decreases s.len() - i,
    via has_unclosed_decreases
{
    if i < 0 || i >= s.len() {
        false
    } else if s[i] == '<' && depth == 0 {
        let close = close_pos(s, i + 1, 1);
        if close >= s.len() {
            true
        } else {
            has_unclosed(s, close + 1, 0)
        }
    } else {
        has_unclosed(s, i + 1, next_depth(s[i], depth))
    }
}

#[via_fn]
proof fn has_unclosed_decreases(s: Seq<char>, i: int, depth: int) {
    if 0 <= i < s.len() && s[i] == '<' && depth == 0 {
        lemma_close_pos_bounds(s, i + 1, 1);
    }
}

/// The parity of the token count against the bracket structure: outside
/// a bracket group the split has an even number of tokens exactly when
/// an unclosed depth-zero `<` follows; inside a group it does exactly
/// when the group closes and no unclosed `<` follows the close.
proof fn lemma_split_parity(s: Seq<char>, i: int, depth: int)
    requires
        0 <= i <= s.len(),
    ensures
        depth <= 0 ==> (split_from(s, i, depth).len() % 2 == 0 <==> has_unclosed(s, i, depth)),
        depth >= 1 ==> (split_from(s, i, depth).len() % 2 == 0 <==> (close_pos(s, i, depth)
            < s.len() && !has_unclosed(s, close_pos(s, i, depth) + 1, 0))),
    decreases s.len() - i,
{
    lemma_split_nonempty(s, i, depth);
    if i < s.len() {
        let c = s[i];
        let stepped = next_depth(c, depth);
        lemma_split_parity(s, i + 1, stepped);
        lemma_split_nonempty(s, i + 1, stepped);
        if c == '<' && depth == 0 {
            lemma_close_pos_bounds(s, i + 1, 1);
        } else if c == '>' && depth == 1 {
        } else if depth >= 1 {
            lemma_close_pos_bounds(s, i + 1, stepped);
        }
    }
}

/// The malformed case matches its description: the split of a signature
/// has an even number of tokens exactly when some `<` met at nesting
/// depth zero has no matching `>` — the depth counter never returns to
/// zero after it.
pub proof fn lemma_split_even_iff_unclosed(s: Seq<char>)
    ensures
        split_from(s, 0, 0).len() % 2 == 0 <==> has_unclosed(s, 0, 0),
{
    lemma_split_parity(s, 0, 0);
}

/// The views of a vector of strings.
pub open spec fn tokens_model(tokens: Seq<String>) -> Seq<Seq<char>> {
    Seq::new(tokens.len(), |i: int| tokens[i]@)
}

/// Prefixing the first token of a split.
spec fn prepend_first(prefix: Seq<char>, tokens: Seq<Seq<char>>) -> Seq<Seq<char>> {
    tokens.update(0, prefix + tokens[0])
}

/// The nesting depth after the first `i` characters of `s`.
pub open spec fn depth_at(s: Seq<char>, i: int) -> int
    decreases i,
{
    if i <= 0 {
        0
    } else {
        next_depth(s[i - 1], depth_at(s, i - 1))
    }
}

/// Splits a signature at its depth-zero angle brackets: the text before
/// the first `<` met at depth zero, then alternately the text between
/// matching depth-zero brackets and the text between a closing and the
/// next opening one.
pub fn split_generics(y: &str) -> (r: Vec<String>)
    ensures
        tokens_model(r@) == split_from(y@, 0, 0),
{
    let n = y.unicode_len();
    let mut out: Vec<String> = Vec::new();
    let mut start: usize = 0;
    let mut depth: i128 = 0;
    let mut i: usize = 0;
    proof {
        lemma_split_nonempty(y@, 0, 0);
        assert(tokens_model(out@) + prepend_first(
            y@.subrange(0, 0),
            split_from(y@, 0, 0),
        ) =~~= split_from(y@, 0, 0));
    }
    while i < n
        invariant
            n == y@.len(),
            i <= n,
            start <= i,
            depth == depth_at(y@, i as int),
            -(i as int) <= depth <= i as int,
            split_from(y@, 0, 0) == tokens_model(out@) + prepend_first(
                y@.subrange(start as int, i as int),
                split_from(y@, i as int, depth as int),
            ),
        decreases n - i,
    {
        let c = y.get_char(i);
        proof {
            lemma_split_nonempty(y@, i as int + 1, next_depth(c, depth as int));
        }
        if (c == '<' && depth == 0) || (c == '>' && depth == 1) {
            let token = String::from_str(y.substring_char(start, i));
            let ghost old_out = out@;
            out.push(token);
            proof {
                let rest = split_from(y@, i as int + 1, next_depth(c, depth as int));
                assert(tokens_model(out@) =~~= tokens_model(old_out) + seq![
                    y@.subrange(start as int, i as int),
                ]);
                assert(prepend_first(y@.subrange(i as int + 1, i as int + 1), rest) =~~= rest);
                assert(split_from(y@, 0, 0) =~~= tokens_model(out@) + prepend_first(
                    y@.subrange(i as int + 1, i as int + 1),
                    rest,
                ));
            }
            start = i + 1;
        } else {
            proof {
                let rest = split_from(y@, i as int + 1, next_depth(c, depth as int));
                let stepped = split_from(y@, i as int, depth as int);
                assert(stepped == rest.update(0, seq![c] + rest[0]));
                assert(prepend_first(y@.subrange(start as int, i as int), stepped) =~~= prepend_first(
                    y@.subrange(start as int, i as int + 1),
                    rest,
                ));
            }
        }
        if c == '<' {
            depth = depth + 1;
        } else if c == '>' {
            depth = depth - 1;
        }
        i += 1;
    }
    let token = String::from_str(y.substring_char(start, n));
    let ghost old_out = out@;
    out.push(token);
    proof {
        assert(split_from(y@, n as int, depth as int) =~~= seq![Seq::<char>::empty()]);
        assert(prepend_first(y@.subrange(start as int, n as int), seq![Seq::<char>::empty()])
            =~~= seq![y@.subrange(start as int, n as int)]);
        assert(tokens_model(out@) =~~= tokens_model(old_out) + seq![
            y@.subrange(start as int, n as int),
        ]);
        assert(tokens_model(out@) =~~= split_from(y@, 0, 0));
    }
    out
}

/// The leaf a bare identifier parses to: a recognized primitive name
/// becomes a scalar of its kind, any other text an opaque reference.
pub open spec fn spec_leaf(t: Seq<char>) -> LeafModel {
    match spec_classify(t) {
        Some(kind) => LeafModel::Simple(kind),
        None => LeafModel::Reference(t),
    }
}

/// What a signature parses to, if anything.  The trimmed text is split
/// at its depth-zero brackets: one token is a bare identifier; an even
/// number of tokens means a bracket never closed
/// ([`lemma_split_even_iff_unclosed`]), which is the one malformed
/// case; otherwise the text before the first bracket names the wrapper,
/// and a recognized `Vec` or `Option` wraps the parse of the first
/// bracketed token, while an unrecognized wrapper leaves the whole
/// trimmed text one opaque reference.
pub open spec fn spec_parse(s: Seq<char>) -> Option<TypeModel>
    decreases s.len(),
    via spec_parse_decreases
{
    let t = spec_trim(s);
    let parts = split_from(t, 0, 0);
    if parts.len() == 1 {
        Some(TypeModel { wrappers: Seq::empty(), leaf: spec_leaf(t) })
    } else if parts.len() % 2 == 0 {
        None
    } else if spec_trim(parts[0]) == "Vec"@ {
        match spec_parse(spec_trim(parts[1])) {
            Some(m) => Some(
                TypeModel { wrappers: seq![WrapKind::ArrayWrap] + m.wrappers, leaf: m.leaf },
            ),
            None => None,
        }
    } else if spec_trim(parts[0]) == "Option"@ {
        match spec_parse(spec_trim(parts[1])) {
            Some(m) => Some(
                TypeModel { wrappers: seq![WrapKind::NullableWrap] + m.wrappers, leaf: m.leaf },
            ),
            None => None,
        }
    } else {
        Some(TypeModel { wrappers: Seq::empty(), leaf: LeafModel::Reference(t) })
    }
}

#[via_fn]
proof fn spec_parse_decreases(s: Seq<char>) {
    let t = spec_trim(s);
    let parts = split_from(t, 0, 0);
    lemma_trim_le(s);
    lemma_split_token_bound(t, 0, 0);
    if parts.len() >= 2 {
        lemma_trim_le(parts[1]);
    }
}

/// The number of recognized wrapper levels of a signature: how many
/// times a trimmed `Vec<..>` or `Option<..>` form can be unwrapped.
pub open spec fn wrapper_levels(s: Seq<char>) -> nat
    decreases s.len(),
    via wrapper_levels_decreases
{
    let t = spec_trim(s);
    let parts = split_from(t, 0, 0);
    if parts.len() == 1 || parts.len() % 2 == 0 {
        0
    } else if spec_trim(parts[0]) == "Vec"@ || spec_trim(parts[0]) == "Option"@ {
        1 + wrapper_levels(spec_trim(parts[1]))
    } else {
        0
    }
}

#[via_fn]
proof fn wrapper_levels_decreases(s: Seq<char>) {
    let t = spec_trim(s);
    let parts = split_from(t, 0, 0);
    lemma_trim_le(s);
    lemma_split_token_bound(t, 0, 0);
    if parts.len() >= 2 {
        lemma_trim_le(parts[1]);
    }
}

/// Depth correspondence: any type tree that a signature parses to has a
/// nesting depth equal to the number of recognized wrapper levels of the
/// signature text.
pub proof fn lemma_parse_depth(s: Seq<char>, t: Type)
    requires
        spec_parse(s) == Some(t@),
    ensures
        crate::types::spec_depth(t) == wrapper_levels(s),
{
    lemma_parse_depth_model(s);
}

proof fn lemma_parse_depth_model(s: Seq<char>)
    requires
        spec_parse(s) is Some,
    ensures
        spec_parse(s).unwrap().wrappers.len() == wrapper_levels(s),
    decreases s.len(),
{
    let t = spec_trim(s);
    let parts = split_from(t, 0, 0);
    lemma_trim_le(s);
    lemma_split_token_bound(t, 0, 0);
    if parts.len() == 1 || parts.len() % 2 == 0 {
    } else if spec_trim(parts[0]) == "Vec"@ || spec_trim(parts[0]) == "Option"@ {
        lemma_trim_le(parts[1]);
        lemma_parse_depth_model(spec_trim(parts[1]));
    }
}

/// Parses a raw type signature into its type tree, or reports that a
/// bracket never closed.
pub fn parse(signature: &str) -> (r: Result<Type, SchemaError>)
    ensures
        match r {
            Ok(t) => spec_parse(signature@) == Some(t@) && wf_model(t@),
            Err(e) => spec_parse(signature@) is None && e == SchemaError::MalformedSignature,
        },
    decreases signature@.len(),
{
    let t = trim_str(signature);
    let parts = split_generics(t);
    if parts.len() == 1 {
        match into_json_type(t) {
            Some(kind) => Ok(Type::Simple(kind)),
            None => Ok(Type::Reference(String::from_str(t))),
        }
    } else if parts.len() % 2 == 0 {
        Err(SchemaError::MalformedSignature)
    } else {
        let wrapper = trim_str(parts[0].as_str());
        let inner = trim_str(parts[1].as_str());
        proof {
            lemma_trim_le(signature@);
            lemma_split_token_bound(t@, 0, 0);
            lemma_trim_le(parts@[1]@);
        }
        if str_eq(wrapper, "Vec") {
            match parse(inner) {
                Ok(element) => Ok(Type::Array(Box::new(element))),
                Err(e) => Err(e),
            }
        } else if str_eq(wrapper, "Option") {
            match parse(inner) {
                Ok(element) => Ok(Type::Nullable(Box::new(element))),
                Err(e) => Err(e),
            }
        } else {
            Ok(Type::Reference(String::from_str(t)))
        }
    }
}

} // verus!

//! Identifier normalization and the names of registry slots and bridging continuations.
use vstd::prelude::*;

use crate::text::{chars_of, push_str, string_of};

verus! {

/// `char::is_whitespace`: the Unicode `White_Space` property.
pub open spec fn is_white_space(c: char) -> bool {
    ('\u{9}' <= c && c <= '\u{d}') || c == ' ' || c == '\u{85}' || c == '\u{a0}'
        || c == '\u{1680}' || ('\u{2000}' <= c && c <= '\u{200a}') || c == '\u{2028}'
        || c == '\u{2029}' || c == '\u{202f}' || c == '\u{205f}' || c == '\u{3000}'
}

pub open spec fn is_ascii_lower(c: char) -> bool {
    'a' <= c && c <= 'z'
}

pub open spec fn is_ascii_upper(c: char) -> bool {
    'A' <= c && c <= 'Z'
}

pub open spec fn is_ascii_alnum(c: char) -> bool {
    is_ascii_lower(c) || is_ascii_upper(c) || ('0' <= c && c <= '9')
}

pub open spec fn ascii_lower(c: char) -> char {
    if is_ascii_upper(c) {
        ((c as u32) + 32) as char
    } else {
        c
    }
}

/// The normalizer's state after reading a prefix of its input.
pub struct SnakeState {
    pub out: Seq<char>,
    /// Nothing but underscores (and dropped characters) has been read yet.
    pub first: bool,
    /// Underscores read since the last character that was kept, not yet written.
    pub pending: nat,
    /// Whitespace has been read since the last character that was kept.
    pub spaced: bool,
}

pub open spec fn snake_start() -> SnakeState {
    SnakeState { out: seq![], first: true, pending: 0, spaced: false }
}

/// One step of the normalizer.
/// - Underscores before the first other character are copied as they come; later ones are
///   held back, as is whitespace.
/// - Any other character that is neither ASCII alphanumeric nor whitespace is dropped.
/// - Otherwise the character is lowercased and written, preceded by one underscore when
///   underscores or whitespace were held back before it, or else when it is not a lowercase
///   letter and follows another written character.
pub open spec fn snake_step(st: SnakeState, c: char) -> SnakeState {
    if c == '_' {
        if st.first {
            SnakeState { out: st.out.push('_'), ..st }
        } else {
            SnakeState { pending: st.pending + 1, ..st }
        }
    } else if !is_ascii_alnum(c) && !is_white_space(c) {
        st
    } else if !st.first && is_white_space(c) {
        SnakeState { spaced: true, ..st }
    } else {
        let gap = !st.first && (st.pending > 0 || st.spaced);
        let boundary = !st.first && !is_ascii_lower(c);
        SnakeState {
            out: (if gap || boundary { st.out.push('_') } else { st.out }).push(ascii_lower(c)),
            first: false,
            pending: 0,
            spaced: false,
        }
    }
}

pub open spec fn snake_state(s: Seq<char>) -> SnakeState
    decreases s.len(),
{
    if s.len() == 0 {
        snake_start()
    } else {
        snake_step(snake_state(s.drop_last()), s.last())
    }
}

pub open spec fn underscores(n: nat) -> Seq<char>
    decreases n,
{
    if n == 0 {
        seq![]
    } else {
        underscores((n - 1) as nat).push('_')
    }
}

/// The snake_case form of `s`: runs of underscores and whitespace between written characters
/// become one underscore, a trailing run of underscores is kept as it is, and trailing
/// whitespace becomes one underscore.
pub open spec fn snake_case(s: Seq<char>) -> Seq<char> {
    let st = snake_state(s);
    st.out + if st.pending > 0 {
        underscores(st.pending)
    } else if st.spaced {
        seq!['_']
    } else {
        seq![]
    }
}

/// The prefix that marks a registry slot's name.
pub open spec fn slot_prefix() -> Seq<char> {
    "__export_tokens_tt_"@
}

/// The name of the registry slot for an item named `name`.
pub open spec fn slot_name(name: Seq<char>) -> Seq<char> {
    slot_prefix() + snake_case(name)
}

fn is_white_space_char(c: char) -> (r: bool)
    ensures
        r == is_white_space(c),
{
    ('\u{9}' <= c && c <= '\u{d}') || c == ' ' || c == '\u{85}' || c == '\u{a0}'
        || c == '\u{1680}' || ('\u{2000}' <= c && c <= '\u{200a}') || c == '\u{2028}'
        || c == '\u{2029}' || c == '\u{202f}' || c == '\u{205f}' || c == '\u{3000}'
}

fn lower_char(c: char) -> (r: char)
    ensures
        r == ascii_lower(c),
{
    if 'A' <= c && c <= 'Z' {
        let b: u8 = c as u8;
        (b + 32) as char
    } else {
        c
    }
}

/// Returns `input` in snake_case.
pub fn to_snake_case(input: &str) -> (r: String)
    ensures
        r@ == snake_case(input@),
{
    let cs = chars_of(input);
    let mut out: Vec<char> = Vec::new();
    let mut first = true;
    let mut pending: usize = 0;
    let mut spaced = false;
    let mut i: usize = 0;
    while i < cs.len()
        invariant
            i <= cs@.len(),
            cs@ == input@,
            pending <= i,
            snake_state(input@.take(i as int)) == (SnakeState {
                out: out@,
                first,
                pending: pending as nat,
                spaced,
            }),
        decreases cs@.len() - i,
    {
        let c = cs[i];
        proof {
            assert(input@.take(i + 1).drop_last() =~= input@.take(i as int));
        }
        if c == '_' {
            if first {
                out.push('_');
            } else {
                pending = pending + 1;
            }
        } else if !(('a' <= c && c <= 'z') || ('A' <= c && c <= 'Z') || ('0' <= c && c <= '9'))
            && !is_white_space_char(c) {
        } else if !first && is_white_space_char(c) {
            spaced = true;
        } else {
            let gap = !first && (pending > 0 || spaced);
            if gap || (!first && !('a' <= c && c <= 'z')) {
                out.push('_');
            }
            out.push(lower_char(c));
            first = false;
            pending = 0;
            spaced = false;
        }
        i = i + 1;
    }
    assert(input@.take(i as int) =~= input@);
    let ghost base = out@;
    if pending > 0 {
        let mut k: usize = 0;
        assert(base + underscores(0) =~= base);
        while k < pending
            invariant
                k <= pending,
                out@ == base + underscores(k as nat),
            decreases pending - k,
        {
            out.push('_');
            k = k + 1;
            assert(out@ =~= base + underscores(k as nat));
        }
    } else if spaced {
        out.push('_');
        assert(out@ =~= base + seq!['_']);
    } else {
        assert(out@ =~= base + seq![]);
    }
    string_of(&out)
}

/// "Flattens" an identifier by converting it to snake_case.
pub fn flatten_ident(ident: &str) -> (r: String)
    ensures
        r@ == snake_case(ident@),
{
    to_snake_case(ident)
}

/// The name of the registry slot (the callback `macro_rules!`) for an item named `ident`.
pub fn export_tokens_macro_ident(ident: &str) -> (r: String)
    ensures
        r@ == slot_name(ident@),
{
    let mut out: Vec<char> = Vec::new();
    push_str(&mut out, "__export_tokens_tt_");
    let flat = flatten_ident(ident);
    push_str(&mut out, flat.as_str());
    string_of(&out)
}

} // verus!

//! The escaping codec for payloads, and the three-field record that bridging sends through it.
//!
//! `escape` doubles every backslash and turns each `~~` into `\~\~`, so that `~~` can separate
//! the fields of a record. `unescape` reads `\\` as `\` and `\~` as `~`.
use vstd::prelude::*;

use crate::text::{chars_of, string_of};

verus! {

pub open spec fn escape(s: Seq<char>) -> Seq<char>
    decreases s.len(),
{
    if s.len() == 0 {
        seq![]
    } else if s[0] == '\\' {
        seq!['\\', '\\'] + escape(s.skip(1))
    } else if s[0] == '~' && s.len() >= 2 && s[1] == '~' {
        seq!['\\', '~', '\\', '~'] + escape(s.skip(2))
    } else {
        seq![s[0]] + escape(s.skip(1))
    }
}

pub open spec fn unescape(s: Seq<char>) -> Seq<char>
    decreases s.len(),
{
    if s.len() == 0 {
        seq![]
    } else if s[0] == '\\' && s.len() >= 2 && (s[1] == '\\' || s[1] == '~') {
        seq![s[1]] + unescape(s.skip(2))
    } else {
        seq![s[0]] + unescape(s.skip(1))
    }
}

/// The delimiter between the fields of a record.
pub open spec fn delimiter() -> Seq<char> {
    seq!['~', '~']
}

/// The wire form of a record of three fields.
pub open spec fn record(a: Seq<char>, b: Seq<char>, c: Seq<char>) -> Seq<char> {
    escape(a) + delimiter() + escape(b) + delimiter() + escape(c)
}

/// The raw fields of `s`, continuing a field that already holds `cur`: an escape (`\` and the
/// character after it) stays inside its field, and each other `~~` ends a field.
pub open spec fn fields_from(s: Seq<char>, cur: Seq<char>) -> Seq<Seq<char>>
    decreases s.len(),
{
    if s.len() == 0 {
        seq![cur]
    } else if s[0] == '\\' && s.len() >= 2 {
        fields_from(s.skip(2), cur + s.take(2))
    } else if s[0] == '~' && s.len() >= 2 && s[1] == '~' {
        seq![cur] + fields_from(s.skip(2), seq![])
    } else {
        fields_from(s.skip(1), cur.push(s[0]))
    }
}

pub open spec fn fields(s: Seq<char>) -> Seq<Seq<char>> {
    fields_from(s, seq![])
}

/// What a record decodes to: its three fields, unescaped, when it has exactly three.
pub open spec fn split_record(s: Seq<char>) -> Option<(Seq<char>, Seq<char>, Seq<char>)> {
    let f = fields(s);
    if f.len() == 3 {
        Some((unescape(f[0]), unescape(f[1]), unescape(f[2])))
    } else {
        None
    }
}

/// `s` ends with an odd number of `~`: its escaped form then ends with a bare `~`, which a
/// following delimiter would absorb.
pub open spec fn ends_with_odd_tildes(s: Seq<char>) -> bool
    decreases s.len(),
{
    if s.len() == 0 {
        false
    } else if s[0] == '~' && s.len() >= 2 && s[1] == '~' {
        ends_with_odd_tildes(s.skip(2))
    } else if s[0] == '~' && s.len() == 1 {
        true
    } else {
        ends_with_odd_tildes(s.skip(1))
    }
}

pub(crate) fn escape_chars(s: &Vec<char>) -> (r: Vec<char>)
    ensures
        r@ == escape(s@),
{
    let mut out: Vec<char> = Vec::new();
    let mut i: usize = 0;
    assert(s@.skip(0) =~= s@);
    assert(out@ + s@ =~= s@);
    while i < s.len()
        invariant
            i <= s@.len(),
            escape(s@) == out@ + escape(s@.skip(i as int)),
        decreases s@.len() - i,
    {
        let ghost rest = s@.skip(i as int);
        if s[i] == '\\' {
            out.push('\\');
            out.push('\\');
            i = i + 1;
        } else if s[i] == '~' && i + 1 < s.len() && s[i + 1] == '~' {
            out.push('\\');
            out.push('~');
            out.push('\\');
            out.push('~');
            i = i + 2;
        } else {
            out.push(s[i]);
            i = i + 1;
        }
        proof {
            if rest[0] == '\\' || !(rest[0] == '~' && rest.len() >= 2 && rest[1] == '~') {
                assert(rest.skip(1) =~= s@.skip(i as int));
            } else {
                assert(rest.skip(2) =~= s@.skip(i as int));
            }
        }
    }
    assert(s@.skip(i as int) =~= seq![]);
    assert(out@ + seq![] =~= out@);
    out
}

pub(crate) fn unescape_chars(s: &Vec<char>) -> (r: Vec<char>)
    ensures
        r@ == unescape(s@),
{
    let mut out: Vec<char> = Vec::new();
    let mut i: usize = 0;
    assert(s@.skip(0) =~= s@);
    assert(out@ + s@ =~= s@);
    while i < s.len()
        invariant
            i <= s@.len(),
            unescape(s@) == out@ + unescape(s@.skip(i as int)),
        decreases s@.len() - i,
    {
        let ghost rest = s@.skip(i as int);
        if s[i] == '\\' && i + 1 < s.len() && (s[i + 1] == '\\' || s[i + 1] == '~') {
            out.push(s[i + 1]);
            i = i + 2;
            proof {
                assert(rest.skip(2) =~= s@.skip(i as int));
            }
        } else {
            out.push(s[i]);
            i = i + 1;
            proof {
                assert(rest.skip(1) =~= s@.skip(i as int));
            }
        }
    }
    assert(s@.skip(i as int) =~= seq![]);
    out
}

/// Escapes `extra` so that `~~` can be used as a list delimiter around it.
pub fn escape_extra(extra: &str) -> (r: String)
    ensures
        r@ == escape(extra@),
{
    string_of(&escape_chars(&chars_of(extra)))
}

/// Undoes [`escape_extra`].
pub fn unescape_extra(extra: &str) -> (r: String)
    ensures
        r@ == unescape(extra@),
{
    string_of(&unescape_chars(&chars_of(extra)))
}


/// Splits a record into its three fields and unescapes each; `None` when the record does not
/// hold exactly three fields.
pub fn split_extra(extra: &str) -> (r: Option<(String, String, String)>)
    ensures
        match r {
            Some((a, b, c)) => split_record(extra@) == Some((a@, b@, c@)),
            None => split_record(extra@) is None,
        },
{
    let s = chars_of(extra);
    let mut done: Vec<Vec<char>> = Vec::new();
    let mut cur: Vec<char> = Vec::new();
    let mut i: usize = 0;
    assert(s@.skip(0) =~= s@);
    assert(done@.map_values(|v: Vec<char>| v@) + fields_from(s@, cur@) =~= fields(s@));
    while i < s.len()
        invariant
            i <= s@.len(),
            s@ == extra@,
            fields(s@) == done@.map_values(|v: Vec<char>| v@) + fields_from(
                s@.skip(i as int),
                cur@,
            ),
        decreases s@.len() - i,
    {
        let ghost rest = s@.skip(i as int);
        let ghost before = done@.map_values(|v: Vec<char>| v@);
        if s[i] == '\\' && i + 1 < s.len() {
            let ghost prev = cur@;
            cur.push(s[i]);
            cur.push(s[i + 1]);
            i = i + 2;
            proof {
                assert(rest.skip(2) =~= s@.skip(i as int));
                assert(cur@ =~= prev + rest.take(2));
                assert(fields_from(rest, prev) == fields_from(rest.skip(2), prev + rest.take(2)));
            }
        } else if s[i] == '~' && i + 1 < s.len() && s[i + 1] == '~' {
            let ghost prev = cur@;
            done.push(cur);
            cur = Vec::new();
            i = i + 2;
            proof {
                assert(rest.skip(2) =~= s@.skip(i as int));
                assert(done@.map_values(|v: Vec<char>| v@) =~= before.push(prev));
                assert(before + (seq![prev] + fields_from(rest.skip(2), seq![])) =~= before.push(
                    prev,
                ) + fields_from(rest.skip(2), seq![]));
                assert(cur@ =~= seq![]);
            }
        } else {
            let ghost prev = cur@;
            cur.push(s[i]);
            i = i + 1;
            proof {
                assert(rest.skip(1) =~= s@.skip(i as int));
                assert(fields_from(rest, prev) == fields_from(rest.skip(1), prev.push(rest[0])));
            }
        }
    }
    proof {
        assert(s@.skip(i as int) =~= seq![]);
    }
    if done.len() == 2 {
        let c = string_of(&unescape_chars(&cur));
        let b = string_of(&unescape_chars(&done[1]));
        let a = string_of(&unescape_chars(&done[0]));
        Some((a, b, c))
    } else {
        None
    }
}

/// Joins three fields into a record.
pub fn join_extra(a: &str, b: &str, c: &str) -> (r: String)
    ensures
        r@ == record(a@, b@, c@),
{
    let mut out = escape_chars(&chars_of(a));
    out.push('~');
    out.push('~');
    let mut eb = escape_chars(&chars_of(b));
    out.append(&mut eb);
    out.push('~');
    out.push('~');
    let mut ec = escape_chars(&chars_of(c));
    out.append(&mut ec);
    string_of(&out)
}

proof fn lemma_escape_head(s: Seq<char>)
    requires
        s.len() > 0,
        s[0] != '~',
    ensures
        escape(s).len() > 0,
        escape(s)[0] == s[0],
{
}

/// Unescaping undoes escaping, for every string.
pub proof fn lemma_unescape_escape(s: Seq<char>)
    ensures
        unescape(escape(s)) == s,
    decreases s.len(),
{
    if s.len() == 0 {
    } else if s[0] == '\\' {
        let e = escape(s.skip(1));
        lemma_unescape_escape(s.skip(1));
        assert((seq!['\\', '\\'] + e).skip(2) =~= e);
        assert(seq![s[0]] + s.skip(1) =~= s);
    } else if s[0] == '~' && s.len() >= 2 && s[1] == '~' {
        let e = escape(s.skip(2));
        lemma_unescape_escape(s.skip(2));
        let w = seq!['\\', '~', '\\', '~'] + e;
        assert(w.skip(2) =~= seq!['\\', '~'] + e);
        assert((seq!['\\', '~'] + e).skip(2) =~= e);
        assert(seq!['~', '~'] + s.skip(2) =~= s);
        assert(unescape(w) =~= seq!['~'] + unescape(w.skip(2)));
        assert(unescape(w.skip(2)) =~= seq!['~'] + unescape(e));
    } else {
        let e = escape(s.skip(1));
        lemma_unescape_escape(s.skip(1));
        assert((seq![s[0]] + e).skip(1) =~= e);
        assert(seq![s[0]] + s.skip(1) =~= s);
    }
}

proof fn lemma_fields_delimiter(t: Seq<char>, cur: Seq<char>)
    ensures
        fields_from(delimiter() + t, cur) == seq![cur] + fields_from(t, seq![]),
{
    assert((delimiter() + t).skip(2) =~= t);
}

/// A field that does not end with an odd number of `~` ends, once escaped, right where the
/// delimiter that follows it begins.
proof fn lemma_fields_escaped(x: Seq<char>, t: Seq<char>, cur: Seq<char>)
    requires
        !ends_with_odd_tildes(x),
        t.len() >= 2,
        t[0] == '~',
        t[1] == '~',
    ensures
        fields_from(escape(x) + t, cur) == fields_from(t, cur + escape(x)),
    decreases x.len(),
{
    let w = escape(x) + t;
    if x.len() == 0 {
        assert(w =~= t);
        assert(cur + escape(x) =~= cur);
    } else if x[0] == '\\' {
        let e = escape(x.skip(1));
        lemma_fields_escaped(x.skip(1), t, cur + seq!['\\', '\\']);
        assert(w =~= seq!['\\', '\\'] + (e + t));
        assert(w.skip(2) =~= e + t);
        assert(w.take(2) =~= seq!['\\', '\\']);
        assert(fields_from(w, cur) == fields_from(w.skip(2), cur + w.take(2)));
        assert(cur + seq!['\\', '\\'] + e =~= cur + escape(x));
    } else if x[0] == '~' && x.len() >= 2 && x[1] == '~' {
        let e = escape(x.skip(2));
        let pre = seq!['\\', '~', '\\', '~'];
        lemma_fields_escaped(x.skip(2), t, cur + pre);
        assert(w =~= pre + (e + t));
        assert(w.skip(2).skip(2) =~= e + t);
        assert(w.take(2) =~= seq!['\\', '~']);
        assert(w.skip(2).take(2) =~= seq!['\\', '~']);
        assert(fields_from(w, cur) == fields_from(w.skip(2), cur + w.take(2)));
        assert(fields_from(w.skip(2), cur + w.take(2)) == fields_from(
            w.skip(2).skip(2),
            cur + w.take(2) + w.skip(2).take(2),
        ));
        assert(cur + seq!['\\', '~'] + seq!['\\', '~'] =~= cur + pre);
        assert(cur + pre + e =~= cur + escape(x));
    } else {
        let e = escape(x.skip(1));
        if x[0] == '~' {
            lemma_escape_head(x.skip(1));
        }
        lemma_fields_escaped(x.skip(1), t, cur.push(x[0]));
        assert(w =~= seq![x[0]] + (e + t));
        assert(w.skip(1) =~= e + t);
        assert(fields_from(w, cur) == fields_from(w.skip(1), cur.push(w[0])));
        assert(cur.push(x[0]) + e =~= cur + escape(x));
    }
}

/// The last field of a record runs to its end.
proof fn lemma_fields_last(x: Seq<char>, cur: Seq<char>)
    ensures
        fields_from(escape(x), cur) == seq![cur + escape(x)],
    decreases x.len(),
{
    let w = escape(x);
    if x.len() == 0 {
        assert(cur + w =~= cur);
    } else if x[0] == '\\' {
        let e = escape(x.skip(1));
        lemma_fields_last(x.skip(1), cur + seq!['\\', '\\']);
        assert(w.skip(2) =~= e);
        assert(w.take(2) =~= seq!['\\', '\\']);
        assert(fields_from(w, cur) == fields_from(w.skip(2), cur + w.take(2)));
        assert(cur + seq!['\\', '\\'] + e =~= cur + w);
    } else if x[0] == '~' && x.len() >= 2 && x[1] == '~' {
        let e = escape(x.skip(2));
        let pre = seq!['\\', '~', '\\', '~'];
        lemma_fields_last(x.skip(2), cur + pre);
        assert(w.skip(2).skip(2) =~= e);
        assert(w.take(2) =~= seq!['\\', '~']);
        assert(w.skip(2).take(2) =~= seq!['\\', '~']);
        assert(fields_from(w, cur) == fields_from(w.skip(2), cur + w.take(2)));
        assert(fields_from(w.skip(2), cur + w.take(2)) == fields_from(
            w.skip(2).skip(2),
            cur + w.take(2) + w.skip(2).take(2),
        ));
        assert(cur + seq!['\\', '~'] + seq!['\\', '~'] =~= cur + pre);
        assert(cur + pre + e =~= cur + w);
    } else {
        let e = escape(x.skip(1));
        if x[0] == '~' && x.len() >= 2 {
            lemma_escape_head(x.skip(1));
        }
        lemma_fields_last(x.skip(1), cur.push(x[0]));
        assert(w.skip(1) =~= e);
        assert(fields_from(w, cur) == fields_from(w.skip(1), cur.push(w[0])));
        assert(cur.push(x[0]) + e =~= cur + w);
    }
}

/// A record decodes to the fields it was built from, whatever they hold (delimiters and
/// backslashes included), provided neither of the first two fields ends with an odd number of
/// `~`. (Such a field is indistinguishable from its neighbour: the records of `("~", "", c)`
/// and `("", "~", c)` are the same string.)
pub proof fn lemma_split_record(a: Seq<char>, b: Seq<char>, c: Seq<char>)
    requires
        !ends_with_odd_tildes(a),
        !ends_with_odd_tildes(b),
    ensures
        split_record(record(a, b, c)) == Some((a, b, c)),
{
    let (ea, eb, ec) = (escape(a), escape(b), escape(c));
    let tail_b = delimiter() + ec;
    let tail_a = delimiter() + eb + tail_b;
    assert(record(a, b, c) =~= ea + tail_a);
    lemma_fields_escaped(a, tail_a, seq![]);
    assert(seq![] + ea =~= ea);
    assert(tail_a =~= delimiter() + (eb + tail_b));
    lemma_fields_delimiter(eb + tail_b, ea);
    lemma_fields_escaped(b, tail_b, seq![]);
    assert(seq![] + eb =~= eb);
    lemma_fields_delimiter(ec, eb);
    lemma_fields_last(c, seq![]);
    assert(seq![] + ec =~= ec);
    assert(fields(record(a, b, c)) =~= seq![ea, eb, ec]);
    lemma_unescape_escape(a);
    lemma_unescape_escape(b);
    lemma_unescape_escape(c);
}

} // verus!

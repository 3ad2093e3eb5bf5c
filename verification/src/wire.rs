//! The wire grammar: a restricted form of line-oriented JSON.
//!
//! A line is one object whose values are scalars (null, unsigned integer,
//! string, array of strings) or one level of nested object with scalar
//! values — exactly the shapes the envelope schema uses.  The grammar is
//! defined twice: as spec functions (`print_*`, `parse_*`) that the proofs
//! speak about, and as executable functions proved equal to them.  The
//! printer and the parser are proved inverse ([`lemma_line_rt`]); the
//! envelope-level round-trip laws in [`crate::codec`] build on that.

use vstd::prelude::*;

verus! {

/// A scalar wire value.
pub enum ScalarV {
    Null,
    UInt(usize),
    Str(Seq<char>),
    StrArr(Seq<Seq<char>>),
}

/// A top-level field value: a scalar, or one nested object of scalars.
pub enum TopValV {
    Sc(ScalarV),
    Obj(Seq<(Seq<char>, ScalarV)>),
}

// ---------------------------------------------------------------------------
// Characters
// ---------------------------------------------------------------------------

/// Insignificant whitespace between tokens.
pub open spec fn is_ws(c: char) -> bool {
    c == ' ' || c == '\t' || c == '\n' || c == '\r'
}

pub open spec fn is_digit(c: char) -> bool {
    '0' as u32 <= c as u32 && c as u32 <= '9' as u32
}

pub open spec fn digit_val(c: char) -> nat {
    (c as u32 - '0' as u32) as nat
}

/// The decimal digit character for `d < 10`.
pub open spec fn dec_digit(d: nat) -> char {
    if d == 0 { '0' }
    else if d == 1 { '1' }
    else if d == 2 { '2' }
    else if d == 3 { '3' }
    else if d == 4 { '4' }
    else if d == 5 { '5' }
    else if d == 6 { '6' }
    else if d == 7 { '7' }
    else if d == 8 { '8' }
    else { '9' }
}

// ---------------------------------------------------------------------------
// Printing
// ---------------------------------------------------------------------------

/// How one character appears inside a printed string: quote, backslash and
/// the common control characters are escaped; everything else is itself.
pub open spec fn esc_char(c: char) -> Seq<char> {
    if c == '"' { seq!['\\', '"'] }
    else if c == '\\' { seq!['\\', '\\'] }
    else if c == '\n' { seq!['\\', 'n'] }
    else if c == '\t' { seq!['\\', 't'] }
    else if c == '\r' { seq!['\\', 'r'] }
    else if c == '\u{0008}' { seq!['\\', 'b'] }
    else if c == '\u{000C}' { seq!['\\', 'f'] }
    else { seq![c] }
}

pub open spec fn esc_str(s: Seq<char>) -> Seq<char>
    decreases s.len(),
{
    if s.len() == 0 {
        Seq::empty()
    } else {
        esc_char(s[0]) + esc_str(s.skip(1))
    }
}

/// A printed string: its content escaped, between quotes.
pub open spec fn print_string(s: Seq<char>) -> Seq<char> {
    seq!['"'] + esc_str(s) + seq!['"']
}

/// The decimal digits of `n`, most significant first, no leading zeros.
pub open spec fn print_uint(n: nat) -> Seq<char>
    decreases n,
{
    if n < 10 {
        seq![dec_digit(n)]
    } else {
        print_uint(n / 10).push(dec_digit(n % 10))
    }
}

pub open spec fn print_strarr_elems(a: Seq<Seq<char>>) -> Seq<char>
    decreases a.len(),
{
    if a.len() == 0 {
        Seq::empty()
    } else if a.len() == 1 {
        print_string(a[0])
    } else {
        print_string(a[0]) + seq![','] + print_strarr_elems(a.skip(1))
    }
}

pub open spec fn print_strarr(a: Seq<Seq<char>>) -> Seq<char> {
    seq!['['] + print_strarr_elems(a) + seq![']']
}

pub open spec fn print_scalar(v: ScalarV) -> Seq<char> {
    match v {
        ScalarV::Null => "null"@,
        ScalarV::UInt(n) => print_uint(n as nat),
        ScalarV::Str(s) => print_string(s),
        ScalarV::StrArr(a) => print_strarr(a),
    }
}

pub open spec fn print_flat_entries(es: Seq<(Seq<char>, ScalarV)>) -> Seq<char>
    decreases es.len(),
{
    if es.len() == 0 {
        Seq::empty()
    } else if es.len() == 1 {
        print_string(es[0].0) + seq![':'] + print_scalar(es[0].1)
    } else {
        print_string(es[0].0) + seq![':'] + print_scalar(es[0].1) + seq![',']
            + print_flat_entries(es.skip(1))
    }
}

pub open spec fn print_flatobj(es: Seq<(Seq<char>, ScalarV)>) -> Seq<char> {
    seq!['{'] + print_flat_entries(es) + seq!['}']
}

pub open spec fn print_top_val(v: TopValV) -> Seq<char> {
    match v {
        TopValV::Sc(sc) => print_scalar(sc),
        TopValV::Obj(es) => print_flatobj(es),
    }
}

pub open spec fn print_top_entries(es: Seq<(Seq<char>, TopValV)>) -> Seq<char>
    decreases es.len(),
{
    if es.len() == 0 {
        Seq::empty()
    } else if es.len() == 1 {
        print_string(es[0].0) + seq![':'] + print_top_val(es[0].1)
    } else {
        print_string(es[0].0) + seq![':'] + print_top_val(es[0].1) + seq![',']
            + print_top_entries(es.skip(1))
    }
}

/// A printed line: the whole top-level object.
pub open spec fn print_topobj(es: Seq<(Seq<char>, TopValV)>) -> Seq<char> {
    seq!['{'] + print_top_entries(es) + seq!['}']
}

// ---------------------------------------------------------------------------
// Parsing
//
// Each `parse_*` function takes the remaining input and returns the parsed
// value together with the input left over, or `None` when the input does not
// start with that production.
// ---------------------------------------------------------------------------

/// The input with leading whitespace removed.
pub open spec fn skip_ws(s: Seq<char>) -> Seq<char>
    decreases s.len(),
{
    if s.len() > 0 && is_ws(s[0]) {
        skip_ws(s.skip(1))
    } else {
        s
    }
}

/// What a backslash escape stands for.
pub open spec fn unesc(c: char) -> Option<char> {
    if c == '"' { Some('"') }
    else if c == '\\' { Some('\\') }
    else if c == '/' { Some('/') }
    else if c == 'n' { Some('\n') }
    else if c == 't' { Some('\t') }
    else if c == 'r' { Some('\r') }
    else if c == 'b' { Some('\u{0008}') }
    else if c == 'f' { Some('\u{000C}') }
    else { None }
}

/// The content of a string, read up to and over the closing quote.
pub open spec fn parse_str_body(s: Seq<char>) -> Option<(Seq<char>, Seq<char>)>
    decreases s.len(),
{
    if s.len() == 0 {
        None
    } else if s[0] == '"' {
        Some((Seq::empty(), s.skip(1)))
    } else if s[0] == '\\' {
        if s.len() >= 2 {
            match unesc(s[1]) {
                Some(c) => match parse_str_body(s.skip(2)) {
                    Some((t, r)) => Some((seq![c] + t, r)),
                    None => None,
                },
                None => None,
            }
        } else {
            None
        }
    } else {
        match parse_str_body(s.skip(1)) {
            Some((t, r)) => Some((seq![s[0]] + t, r)),
            None => None,
        }
    }
}

pub open spec fn parse_string(s: Seq<char>) -> Option<(Seq<char>, Seq<char>)> {
    if s.len() > 0 && s[0] == '"' {
        parse_str_body(s.skip(1))
    } else {
        None
    }
}

/// The longest digit prefix of the input, and what follows it.
pub open spec fn take_digits(s: Seq<char>) -> (Seq<char>, Seq<char>)
    decreases s.len(),
{
    if s.len() > 0 && is_digit(s[0]) {
        let (d, r) = take_digits(s.skip(1));
        (seq![s[0]] + d, r)
    } else {
        (Seq::empty(), s)
    }
}

/// The value of a digit sequence, most significant digit first.
pub open spec fn digits_val(ds: Seq<char>) -> nat
    decreases ds.len(),
{
    if ds.len() == 0 {
        0
    } else {
        digits_val(ds.drop_last()) * 10 + digit_val(ds.last())
    }
}

/// An unsigned integer; values beyond `usize` are rejected.
pub open spec fn parse_uint(s: Seq<char>) -> Option<(usize, Seq<char>)> {
    let (ds, r) = take_digits(s);
    if ds.len() == 0 {
        None
    } else if digits_val(ds) > usize::MAX as nat {
        None
    } else {
        Some((digits_val(ds) as usize, r))
    }
}

/// A fixed word such as `null`.
pub open spec fn parse_lit(s: Seq<char>, lit: Seq<char>) -> Option<Seq<char>> {
    if lit.len() <= s.len() && s.subrange(0, lit.len() as int) == lit {
        Some(s.skip(lit.len() as int))
    } else {
        None
    }
}

proof fn lemma_skip_ws_len(s: Seq<char>)
    ensures
        skip_ws(s).len() <= s.len(),
    decreases s.len(),
{
    if s.len() > 0 && is_ws(s[0]) {
        lemma_skip_ws_len(s.skip(1));
    }
}

proof fn lemma_parse_str_body_len(s: Seq<char>)
    ensures
        parse_str_body(s) matches Some((t, r)) ==> r.len() < s.len(),
    decreases s.len(),
{
    if s.len() == 0 {
    } else if s[0] == '"' {
    } else if s[0] == '\\' {
        if s.len() >= 2 {
            lemma_parse_str_body_len(s.skip(2));
        }
    } else {
        lemma_parse_str_body_len(s.skip(1));
    }
}

proof fn lemma_parse_string_len(s: Seq<char>)
    ensures
        parse_string(s) matches Some((t, r)) ==> r.len() < s.len(),
{
    if s.len() > 0 && s[0] == '"' {
        lemma_parse_str_body_len(s.skip(1));
    }
}

proof fn lemma_take_digits_len(s: Seq<char>)
    ensures
        take_digits(s).1.len() + take_digits(s).0.len() == s.len(),
    decreases s.len(),
{
    if s.len() > 0 && is_digit(s[0]) {
        lemma_take_digits_len(s.skip(1));
    }
}

/// The elements of a string array, read from just after a `[` (or after a
/// comma), up to and over the closing `]`.
pub open spec fn parse_strarr_elems(s: Seq<char>) -> Option<(Seq<Seq<char>>, Seq<char>)>
    decreases s.len(),
    via parse_strarr_elems_decreases
{
    match parse_string(s) {
        Some((e, r)) => {
            let r1 = skip_ws(r);
            if r1.len() > 0 && r1[0] == ',' {
                match parse_strarr_elems(skip_ws(r1.skip(1))) {
                    Some((rest_elems, r2)) => Some((seq![e] + rest_elems, r2)),
                    None => None,
                }
            } else if r1.len() > 0 && r1[0] == ']' {
                Some((seq![e], r1.skip(1)))
            } else {
                None
            }
        },
        None => None,
    }
}

#[via_fn]
proof fn parse_strarr_elems_decreases(s: Seq<char>) {
    lemma_parse_string_len(s);
    if let Some((e, r)) = parse_string(s) {
        lemma_skip_ws_len(r);
        let r1 = skip_ws(r);
        if r1.len() > 0 && r1[0] == ',' {
            lemma_skip_ws_len(r1.skip(1));
        }
    }
}

/// A string array, including its brackets.
pub open spec fn parse_strarr(s: Seq<char>) -> Option<(Seq<Seq<char>>, Seq<char>)> {
    if s.len() > 0 && s[0] == '[' {
        let s1 = skip_ws(s.skip(1));
        if s1.len() > 0 && s1[0] == ']' {
            Some((Seq::empty(), s1.skip(1)))
        } else {
            parse_strarr_elems(s1)
        }
    } else {
        None
    }
}

/// A scalar value, dispatched on its first character.
pub open spec fn parse_scalar(s: Seq<char>) -> Option<(ScalarV, Seq<char>)> {
    if s.len() == 0 {
        None
    } else if s[0] == '"' {
        match parse_string(s) {
            Some((t, r)) => Some((ScalarV::Str(t), r)),
            None => None,
        }
    } else if is_digit(s[0]) {
        match parse_uint(s) {
            Some((n, r)) => Some((ScalarV::UInt(n), r)),
            None => None,
        }
    } else if s[0] == 'n' {
        match parse_lit(s, "null"@) {
            Some(r) => Some((ScalarV::Null, r)),
            None => None,
        }
    } else if s[0] == '[' {
        match parse_strarr(s) {
            Some((a, r)) => Some((ScalarV::StrArr(a), r)),
            None => None,
        }
    } else {
        None
    }
}

proof fn lemma_parse_strarr_elems_len(s: Seq<char>)
    ensures
        parse_strarr_elems(s) matches Some((a, r)) ==> r.len() < s.len(),
    decreases s.len(),
{
    lemma_parse_string_len(s);
    if let Some((e, r)) = parse_string(s) {
        lemma_skip_ws_len(r);
        let r1 = skip_ws(r);
        if r1.len() > 0 && r1[0] == ',' {
            lemma_skip_ws_len(r1.skip(1));
            lemma_parse_strarr_elems_len(skip_ws(r1.skip(1)));
        }
    }
}

proof fn lemma_parse_scalar_len(s: Seq<char>)
    ensures
        parse_scalar(s) matches Some((v, r)) ==> r.len() < s.len(),
{
    lemma_parse_string_len(s);
    lemma_take_digits_len(s);
    reveal_strlit("null");
    if s.len() > 0 && s[0] == '[' {
        lemma_skip_ws_len(s.skip(1));
        lemma_parse_strarr_elems_len(skip_ws(s.skip(1)));
    }
}

/// The entries of an object of scalars, read from just after a `{` (or after
/// a comma), up to and over the closing `}`.
pub open spec fn parse_flat_entries(s: Seq<char>) -> Option<(Seq<(Seq<char>, ScalarV)>, Seq<char>)>
    decreases s.len(),
    via parse_flat_entries_decreases
{
    match parse_string(s) {
        Some((k, r)) => {
            let r1 = skip_ws(r);
            if r1.len() > 0 && r1[0] == ':' {
                match parse_scalar(skip_ws(r1.skip(1))) {
                    Some((v, r2)) => {
                        let r3 = skip_ws(r2);
                        if r3.len() > 0 && r3[0] == ',' {
                            match parse_flat_entries(skip_ws(r3.skip(1))) {
                                Some((rest_es, r4)) => Some((seq![(k, v)] + rest_es, r4)),
                                None => None,
                            }
                        } else if r3.len() > 0 && r3[0] == '}' {
                            Some((seq![(k, v)], r3.skip(1)))
                        } else {
                            None
                        }
                    },
                    None => None,
                }
            } else {
                None
            }
        },
        None => None,
    }
}

#[via_fn]
proof fn parse_flat_entries_decreases(s: Seq<char>) {
    lemma_parse_string_len(s);
    if let Some((k, r)) = parse_string(s) {
        lemma_skip_ws_len(r);
        let r1 = skip_ws(r);
        if r1.len() > 0 && r1[0] == ':' {
            lemma_skip_ws_len(r1.skip(1));
            lemma_parse_scalar_len(skip_ws(r1.skip(1)));
            if let Some((v, r2)) = parse_scalar(skip_ws(r1.skip(1))) {
                lemma_skip_ws_len(r2);
                let r3 = skip_ws(r2);
                if r3.len() > 0 && r3[0] == ',' {
                    lemma_skip_ws_len(r3.skip(1));
                }
            }
        }
    }
}

/// An object of scalars, including its braces.
pub open spec fn parse_flatobj(s: Seq<char>) -> Option<(Seq<(Seq<char>, ScalarV)>, Seq<char>)> {
    if s.len() > 0 && s[0] == '{' {
        let s1 = skip_ws(s.skip(1));
        if s1.len() > 0 && s1[0] == '}' {
            Some((Seq::empty(), s1.skip(1)))
        } else {
            parse_flat_entries(s1)
        }
    } else {
        None
    }
}

/// A top-level field value: a nested object of scalars, or a scalar.
pub open spec fn parse_top_val(s: Seq<char>) -> Option<(TopValV, Seq<char>)> {
    if s.len() > 0 && s[0] == '{' {
        match parse_flatobj(s) {
            Some((es, r)) => Some((TopValV::Obj(es), r)),
            None => None,
        }
    } else {
        match parse_scalar(s) {
            Some((v, r)) => Some((TopValV::Sc(v), r)),
            None => None,
        }
    }
}

proof fn lemma_parse_flat_entries_len(s: Seq<char>)
    ensures
        parse_flat_entries(s) matches Some((es, r)) ==> r.len() < s.len(),
    decreases s.len(),
{
    lemma_parse_string_len(s);
    if let Some((k, r)) = parse_string(s) {
        lemma_skip_ws_len(r);
        let r1 = skip_ws(r);
        if r1.len() > 0 && r1[0] == ':' {
            lemma_skip_ws_len(r1.skip(1));
            lemma_parse_scalar_len(skip_ws(r1.skip(1)));
            if let Some((v, r2)) = parse_scalar(skip_ws(r1.skip(1))) {
                lemma_skip_ws_len(r2);
                let r3 = skip_ws(r2);
                if r3.len() > 0 && r3[0] == ',' {
                    lemma_skip_ws_len(r3.skip(1));
                    lemma_parse_flat_entries_len(skip_ws(r3.skip(1)));
                }
            }
        }
    }
}

proof fn lemma_parse_top_val_len(s: Seq<char>)
    ensures
        parse_top_val(s) matches Some((v, r)) ==> r.len() < s.len(),
{
    lemma_parse_scalar_len(s);
    if s.len() > 0 && s[0] == '{' {
        lemma_skip_ws_len(s.skip(1));
        lemma_parse_flat_entries_len(skip_ws(s.skip(1)));
    }
}

/// The entries of the top-level object, read from just after a `{` (or after
/// a comma), up to and over the closing `}`.
pub open spec fn parse_top_entries(s: Seq<char>) -> Option<(Seq<(Seq<char>, TopValV)>, Seq<char>)>
    decreases s.len(),
    via parse_top_entries_decreases
{
    match parse_string(s) {
        Some((k, r)) => {
            let r1 = skip_ws(r);
            if r1.len() > 0 && r1[0] == ':' {
                match parse_top_val(skip_ws(r1.skip(1))) {
                    Some((v, r2)) => {
                        let r3 = skip_ws(r2);
                        if r3.len() > 0 && r3[0] == ',' {
                            match parse_top_entries(skip_ws(r3.skip(1))) {
                                Some((rest_es, r4)) => Some((seq![(k, v)] + rest_es, r4)),
                                None => None,
                            }
                        } else if r3.len() > 0 && r3[0] == '}' {
                            Some((seq![(k, v)], r3.skip(1)))
                        } else {
                            None
                        }
                    },
                    None => None,
                }
            } else {
                None
            }
        },
        None => None,
    }
}

#[via_fn]
proof fn parse_top_entries_decreases(s: Seq<char>) {
    lemma_parse_string_len(s);
    if let Some((k, r)) = parse_string(s) {
        lemma_skip_ws_len(r);
        let r1 = skip_ws(r);
        if r1.len() > 0 && r1[0] == ':' {
            lemma_skip_ws_len(r1.skip(1));
            lemma_parse_top_val_len(skip_ws(r1.skip(1)));
            if let Some((v, r2)) = parse_top_val(skip_ws(r1.skip(1))) {
                lemma_skip_ws_len(r2);
                let r3 = skip_ws(r2);
                if r3.len() > 0 && r3[0] == ',' {
                    lemma_skip_ws_len(r3.skip(1));
                }
            }
        }
    }
}

/// The top-level object of a line, including its braces.
pub open spec fn parse_topobj(s: Seq<char>) -> Option<(Seq<(Seq<char>, TopValV)>, Seq<char>)> {
    if s.len() > 0 && s[0] == '{' {
        let s1 = skip_ws(s.skip(1));
        if s1.len() > 0 && s1[0] == '}' {
            Some((Seq::empty(), s1.skip(1)))
        } else {
            parse_top_entries(s1)
        }
    } else {
        None
    }
}

/// A whole line: one top-level object and nothing else but whitespace.
pub open spec fn parse_line(s: Seq<char>) -> Option<Seq<(Seq<char>, TopValV)>> {
    match parse_topobj(skip_ws(s)) {
        Some((es, r)) => if skip_ws(r).len() == 0 {
            Some(es)
        } else {
            None
        },
        None => None,
    }
}

// ---------------------------------------------------------------------------
// The printer and the parser are inverse
// ---------------------------------------------------------------------------

proof fn lemma_concat_skip<A>(a: Seq<A>, b: Seq<A>, n: int)
    requires
        0 <= n <= a.len(),
    ensures
        (a + b).skip(n) == a.skip(n) + b,
{
    assert((a + b).skip(n) =~= a.skip(n) + b);
}

proof fn lemma_esc_str_rt(s: Seq<char>, rest: Seq<char>)
    ensures
        parse_str_body(esc_str(s) + seq!['"'] + rest) == Some((s, rest)),
    decreases s.len(),
{
    if s.len() == 0 {
        let total = esc_str(s) + seq!['"'] + rest;
        assert(total =~= seq!['"'] + rest);
        assert(total[0] == '"');
        assert(total.skip(1) =~= rest);
    } else {
        let c = s[0];
        let e = esc_char(c);
        let tail = esc_str(s.skip(1)) + seq!['"'] + rest;
        let total = esc_str(s) + seq!['"'] + rest;
        assert(total =~= e + tail);
        lemma_esc_str_rt(s.skip(1), rest);
        if e.len() == 2 {
            assert(total[0] == '\\');
            assert(total[1] == e[1]);
            assert(unesc(e[1]) == Some(c));
            lemma_concat_skip(e, tail, 2);
            assert(total.skip(2) =~= tail);
            assert(seq![c] + s.skip(1) =~= s);
        } else {
            assert(e =~= seq![c]);
            assert(total[0] == c);
            assert(c != '"' && c != '\\');
            lemma_concat_skip(e, tail, 1);
            assert(total.skip(1) =~= tail);
            assert(seq![c] + s.skip(1) =~= s);
        }
    }
}

proof fn lemma_string_rt(s: Seq<char>, rest: Seq<char>)
    ensures
        parse_string(print_string(s) + rest) == Some((s, rest)),
        (print_string(s) + rest)[0] == '"',
        print_string(s).len() >= 2,
{
    let total = print_string(s) + rest;
    assert(total[0] == '"');
    assert(total.skip(1) =~= esc_str(s) + seq!['"'] + rest);
    lemma_esc_str_rt(s, rest);
}

proof fn lemma_print_uint_digits(n: nat)
    ensures
        print_uint(n).len() >= 1,
        forall|i: int| 0 <= i < print_uint(n).len() ==> is_digit(#[trigger] print_uint(n)[i]),
    decreases n,
{
    if n >= 10 {
        lemma_print_uint_digits(n / 10);
    }
}

proof fn lemma_take_digits_exact(ds: Seq<char>, rest: Seq<char>)
    requires
        forall|i: int| 0 <= i < ds.len() ==> is_digit(#[trigger] ds[i]),
        rest.len() == 0 || !is_digit(rest[0]),
    ensures
        take_digits(ds + rest) == (ds, rest),
    decreases ds.len(),
{
    let total = ds + rest;
    if ds.len() == 0 {
        assert(total =~= rest);
        assert(take_digits(total) == (Seq::<char>::empty(), total));
        assert(take_digits(total).0 =~= ds);
    } else {
        assert(is_digit(total[0]));
        lemma_concat_skip(ds, rest, 1);
        assert(total.skip(1) == ds.skip(1) + rest);
        lemma_take_digits_exact(ds.skip(1), rest);
        assert(take_digits(total).0 =~= ds);
    }
}

proof fn lemma_digits_val_print(n: nat)
    ensures
        digits_val(print_uint(n)) == n,
    decreases n,
{
    if n < 10 {
        let ds = print_uint(n);
        assert(ds == seq![dec_digit(n)]);
        assert(ds.len() == 1);
        assert(ds.drop_last() =~= Seq::<char>::empty());
        assert(ds.last() == dec_digit(n));
        assert(digits_val(ds.drop_last()) == 0);
        assert(digits_val(ds) == 0 * 10 + digit_val(ds.last()));
        assert(digit_val(dec_digit(n)) == n);
    } else {
        lemma_digits_val_print(n / 10);
        let ds = print_uint(n);
        let hd = print_uint(n / 10);
        assert(ds == hd.push(dec_digit(n % 10)));
        assert(ds.drop_last() =~= hd);
        assert(ds.last() == dec_digit(n % 10));
        assert(digit_val(dec_digit(n % 10)) == n % 10);
        assert(digits_val(ds) == (n / 10) * 10 + n % 10);
        vstd::arithmetic::div_mod::lemma_fundamental_div_mod(n as int, 10);
    }
}

proof fn lemma_uint_rt(n: usize, rest: Seq<char>)
    requires
        rest.len() == 0 || !is_digit(rest[0]),
    ensures
        parse_uint(print_uint(n as nat) + rest) == Some((n, rest)),
        print_uint(n as nat).len() >= 1,
        is_digit((print_uint(n as nat) + rest)[0]),
{
    lemma_print_uint_digits(n as nat);
    lemma_take_digits_exact(print_uint(n as nat), rest);
    lemma_digits_val_print(n as nat);
}

proof fn lemma_strarr_elems_rt(a: Seq<Seq<char>>, rest: Seq<char>)
    requires
        a.len() >= 1,
    ensures
        parse_strarr_elems(print_strarr_elems(a) + seq![']'] + rest) == Some((a, rest)),
        (print_strarr_elems(a) + seq![']'] + rest)[0] == '"',
    decreases a.len(),
{
    let total = print_strarr_elems(a) + seq![']'] + rest;
    if a.len() == 1 {
        assert(total =~= print_string(a[0]) + (seq![']'] + rest));
        lemma_string_rt(a[0], seq![']'] + rest);
        let r = seq![']'] + rest;
        assert(r[0] == ']');
        assert(!is_ws(r[0]));
        assert(skip_ws(r) == r);
        assert(r.skip(1) =~= rest);
        assert(seq![a[0]] =~= a);
    } else {
        let after0 = seq![','] + (print_strarr_elems(a.skip(1)) + seq![']'] + rest);
        assert(total =~= print_string(a[0]) + after0);
        lemma_string_rt(a[0], after0);
        assert(after0[0] == ',');
        assert(!is_ws(after0[0]));
        assert(skip_ws(after0) == after0);
        let next = print_strarr_elems(a.skip(1)) + seq![']'] + rest;
        assert(after0.skip(1) =~= next);
        lemma_strarr_elems_rt(a.skip(1), rest);
        assert(next[0] == '"');
        assert(!is_ws(next[0]));
        assert(skip_ws(next) == next);
        assert(seq![a[0]] + a.skip(1) =~= a);
    }
}

proof fn lemma_strarr_rt(a: Seq<Seq<char>>, rest: Seq<char>)
    ensures
        parse_strarr(print_strarr(a) + rest) == Some((a, rest)),
        (print_strarr(a) + rest)[0] == '[',
{
    let total = print_strarr(a) + rest;
    assert(total[0] == '[');
    if a.len() == 0 {
        assert(total =~= seq!['[', ']'] + rest);
        assert(total.skip(1) =~= seq![']'] + rest);
        assert(total.skip(1)[0] == ']');
        assert(!is_ws(total.skip(1)[0]));
        assert(skip_ws(total.skip(1)) == total.skip(1));
        assert(total.skip(1).skip(1) =~= rest);
        assert(parse_strarr(total) == Some((Seq::<Seq<char>>::empty(), rest)));
        assert(Seq::<Seq<char>>::empty() =~= a);
    } else {
        let inner = print_strarr_elems(a) + seq![']'] + rest;
        assert(total.skip(1) =~= inner);
        lemma_strarr_elems_rt(a, rest);
        assert(inner[0] == '"');
        assert(!is_ws(inner[0]));
        assert(skip_ws(inner) == inner);
        assert(inner[0] != ']');
    }
}

proof fn lemma_scalar_rt(v: ScalarV, rest: Seq<char>)
    requires
        rest.len() == 0 || !is_digit(rest[0]),
    ensures
        parse_scalar(print_scalar(v) + rest) == Some((v, rest)),
        print_scalar(v).len() >= 1,
        (print_scalar(v) + rest)[0] != '{',
        (print_scalar(v) + rest)[0] != '}',
        !is_ws((print_scalar(v) + rest)[0]),
{
    reveal_strlit("null");
    let total = print_scalar(v) + rest;
    match v {
        ScalarV::Null => {
            assert(total[0] == 'n');
            assert(total[0] != '"');
            assert(!is_digit(total[0]));
            assert("null"@.len() == 4);
            assert(total.len() >= 4);
            assert(total.subrange(0, 4) =~= "null"@);
            assert(parse_lit(total, "null"@) == Some(total.skip(4)));
            assert(total.skip(4) =~= rest);
        },
        ScalarV::UInt(n) => {
            lemma_uint_rt(n, rest);
            assert(is_digit(total[0]));
            assert(total[0] != '"');
        },
        ScalarV::Str(s) => {
            lemma_string_rt(s, rest);
            assert(total[0] == '"');
        },
        ScalarV::StrArr(a) => {
            lemma_strarr_rt(a, rest);
            assert(total[0] == '[');
            assert(total[0] != '"');
            assert(!is_digit(total[0]));
            assert(total[0] != 'n');
        },
    }
}

#[verifier::rlimit(80)]
proof fn lemma_flat_entries_rt(es: Seq<(Seq<char>, ScalarV)>, rest: Seq<char>)
    requires
        es.len() >= 1,
    ensures
        parse_flat_entries(print_flat_entries(es) + seq!['}'] + rest) == Some((es, rest)),
        (print_flat_entries(es) + seq!['}'] + rest)[0] == '"',
    decreases es.len(),
{
    let total = print_flat_entries(es) + seq!['}'] + rest;
    let k = es[0].0;
    let v = es[0].1;
    if es.len() == 1 {
        let after_k = seq![':'] + print_scalar(v) + seq!['}'] + rest;
        assert(total =~= print_string(k) + after_k);
        lemma_string_rt(k, after_k);
        assert(after_k[0] == ':');
        assert(!is_ws(after_k[0]));
        assert(skip_ws(after_k) == after_k);
        let at_v = print_scalar(v) + (seq!['}'] + rest);
        assert(after_k.skip(1) =~= at_v);
        lemma_scalar_rt(v, seq!['}'] + rest);
        assert(at_v =~= print_scalar(v) + seq!['}'] + rest);
        let r2 = seq!['}'] + rest;
        assert(r2[0] == '}');
        assert(!is_ws(r2[0]));
        assert(skip_ws(r2) == r2);
        assert(r2[0] != ',');
        assert(r2.skip(1) =~= rest);
        assert(seq![(k, v)] =~= es);
    } else {
        let next = print_flat_entries(es.skip(1)) + seq!['}'] + rest;
        let after_k = seq![':'] + print_scalar(v) + seq![','] + next;
        assert(total =~= print_string(k) + after_k);
        lemma_string_rt(k, after_k);
        assert(after_k[0] == ':');
        assert(!is_ws(after_k[0]));
        assert(skip_ws(after_k) == after_k);
        let at_v = print_scalar(v) + (seq![','] + next);
        assert(after_k.skip(1) =~= at_v);
        lemma_scalar_rt(v, seq![','] + next);
        assert(at_v =~= print_scalar(v) + seq![','] + next);
        let r2 = seq![','] + next;
        assert(r2[0] == ',');
        assert(!is_ws(r2[0]));
        assert(skip_ws(r2) == r2);
        assert(r2.skip(1) =~= next);
        lemma_flat_entries_rt(es.skip(1), rest);
        assert(next[0] == '"');
        assert(!is_ws(next[0]));
        assert(skip_ws(next) == next);
        assert(seq![(k, v)] + es.skip(1) =~= es);
    }
}

proof fn lemma_flatobj_rt(es: Seq<(Seq<char>, ScalarV)>, rest: Seq<char>)
    ensures
        parse_flatobj(print_flatobj(es) + rest) == Some((es, rest)),
        (print_flatobj(es) + rest)[0] == '{',
{
    let total = print_flatobj(es) + rest;
    assert(total[0] == '{');
    if es.len() == 0 {
        assert(total =~= seq!['{', '}'] + rest);
        assert(total.skip(1) =~= seq!['}'] + rest);
        assert(total.skip(1)[0] == '}');
        assert(!is_ws(total.skip(1)[0]));
        assert(skip_ws(total.skip(1)) == total.skip(1));
        assert(total.skip(1).skip(1) =~= rest);
        assert(parse_flatobj(total) == Some((Seq::<(Seq<char>, ScalarV)>::empty(), rest)));
        assert(Seq::<(Seq<char>, ScalarV)>::empty() =~= es);
    } else {
        let inner = print_flat_entries(es) + seq!['}'] + rest;
        assert(total.skip(1) =~= inner);
        lemma_flat_entries_rt(es, rest);
        assert(inner[0] == '"');
        assert(!is_ws(inner[0]));
        assert(skip_ws(inner) == inner);
        assert(inner[0] != '}');
    }
}

proof fn lemma_top_val_rt(v: TopValV, rest: Seq<char>)
    requires
        rest.len() == 0 || !is_digit(rest[0]),
    ensures
        parse_top_val(print_top_val(v) + rest) == Some((v, rest)),
        print_top_val(v).len() >= 1,
        !is_ws((print_top_val(v) + rest)[0]),
{
    match v {
        TopValV::Sc(sc) => {
            lemma_scalar_rt(sc, rest);
        },
        TopValV::Obj(es) => {
            lemma_flatobj_rt(es, rest);
        },
    }
}

#[verifier::rlimit(80)]
proof fn lemma_top_entries_rt(es: Seq<(Seq<char>, TopValV)>, rest: Seq<char>)
    requires
        es.len() >= 1,
    ensures
        parse_top_entries(print_top_entries(es) + seq!['}'] + rest) == Some((es, rest)),
        (print_top_entries(es) + seq!['}'] + rest)[0] == '"',
    decreases es.len(),
{
    let total = print_top_entries(es) + seq!['}'] + rest;
    let k = es[0].0;
    let v = es[0].1;
    if es.len() == 1 {
        let after_k = seq![':'] + print_top_val(v) + seq!['}'] + rest;
        assert(total =~= print_string(k) + after_k);
        lemma_string_rt(k, after_k);
        assert(after_k[0] == ':');
        assert(!is_ws(after_k[0]));
        assert(skip_ws(after_k) == after_k);
        let at_v = print_top_val(v) + (seq!['}'] + rest);
        assert(after_k.skip(1) =~= at_v);
        lemma_top_val_rt(v, seq!['}'] + rest);
        assert(at_v =~= print_top_val(v) + seq!['}'] + rest);
        let r2 = seq!['}'] + rest;
        assert(r2[0] == '}');
        assert(!is_ws(r2[0]));
        assert(skip_ws(r2) == r2);
        assert(r2[0] != ',');
        assert(r2.skip(1) =~= rest);
        assert(seq![(k, v)] =~= es);
    } else {
        let next = print_top_entries(es.skip(1)) + seq!['}'] + rest;
        let after_k = seq![':'] + print_top_val(v) + seq![','] + next;
        assert(total =~= print_string(k) + after_k);
        lemma_string_rt(k, after_k);
        assert(after_k[0] == ':');
        assert(!is_ws(after_k[0]));
        assert(skip_ws(after_k) == after_k);
        let at_v = print_top_val(v) + (seq![','] + next);
        assert(after_k.skip(1) =~= at_v);
        lemma_top_val_rt(v, seq![','] + next);
        assert(at_v =~= print_top_val(v) + seq![','] + next);
        let r2 = seq![','] + next;
        assert(r2[0] == ',');
        assert(!is_ws(r2[0]));
        assert(skip_ws(r2) == r2);
        assert(r2.skip(1) =~= next);
        lemma_top_entries_rt(es.skip(1), rest);
        assert(next[0] == '"');
        assert(!is_ws(next[0]));
        assert(skip_ws(next) == next);
        assert(seq![(k, v)] + es.skip(1) =~= es);
    }
}

/// The codec's inversion law at the wire level: a printed line parses back
/// to exactly the entries it was printed from.
pub proof fn lemma_line_rt(es: Seq<(Seq<char>, TopValV)>)
    ensures
        parse_line(print_topobj(es)) == Some(es),
{
    let total = print_topobj(es);
    assert(total =~= total + Seq::<char>::empty());
    assert(total[0] == '{');
    assert(!is_ws(total[0]));
    assert(skip_ws(total) == total);
    if es.len() == 0 {
        assert(total =~= seq!['{', '}']);
        assert(total.skip(1) =~= seq!['}']);
        assert(total.skip(1)[0] == '}');
        assert(!is_ws(total.skip(1)[0]));
        assert(skip_ws(total.skip(1)) == total.skip(1));
        assert(total.skip(1).skip(1) =~= Seq::<char>::empty());
        assert(parse_topobj(total) == Some((Seq::<(Seq<char>, TopValV)>::empty(), total.skip(1).skip(1))));
        assert(Seq::<(Seq<char>, TopValV)>::empty() =~= es);
    } else {
        let inner = print_top_entries(es) + seq!['}'] + Seq::<char>::empty();
        assert(total.skip(1) =~= inner);
        lemma_top_entries_rt(es, Seq::<char>::empty());
        assert(inner[0] == '"');
        assert(!is_ws(inner[0]));
        assert(skip_ws(inner) == inner);
        assert(inner[0] != '}');
        assert(parse_topobj(total) == Some((es, Seq::<char>::empty())));
    }
}

// ---------------------------------------------------------------------------
// Executable values
// ---------------------------------------------------------------------------

/// Executable counterpart of [`ScalarV`].
pub enum Scalar {
    Null,
    UInt(usize),
    Str(Vec<char>),
    StrArr(Vec<Vec<char>>),
}

impl View for Scalar {
    type V = ScalarV;

    open spec fn view(&self) -> ScalarV {
        match self {
            Scalar::Null => ScalarV::Null,
            Scalar::UInt(n) => ScalarV::UInt(*n),
            Scalar::Str(s) => ScalarV::Str(s@),
            Scalar::StrArr(a) => ScalarV::StrArr(a.deep_view()),
        }
    }
}

/// Executable counterpart of [`TopValV`].
pub enum TopVal {
    Sc(Scalar),
    Obj(Vec<(Vec<char>, Scalar)>),
}

/// The model of a list of key/scalar entries.
pub open spec fn flat_entries_view(es: Seq<(Vec<char>, Scalar)>) -> Seq<(Seq<char>, ScalarV)> {
    Seq::new(es.len(), |i: int| (es[i].0@, es[i].1@))
}

impl View for TopVal {
    type V = TopValV;

    open spec fn view(&self) -> TopValV {
        match self {
            TopVal::Sc(sc) => TopValV::Sc(sc@),
            TopVal::Obj(es) => TopValV::Obj(flat_entries_view(es@)),
        }
    }
}

/// The model of a list of key/value entries of the top-level object.
pub open spec fn top_entries_view(es: Seq<(Vec<char>, TopVal)>) -> Seq<(Seq<char>, TopValV)> {
    Seq::new(es.len(), |i: int| (es[i].0@, es[i].1@))
}

// ---------------------------------------------------------------------------
// Executable printing
// ---------------------------------------------------------------------------

proof fn lemma_esc_str_snoc(t: Seq<char>, c: char)
    ensures
        esc_str(t.push(c)) == esc_str(t) + esc_char(c),
    decreases t.len(),
{
    if t.len() == 0 {
        let x = t.push(c);
        assert(x.len() == 1);
        assert(x[0] == c);
        assert(x.skip(1) =~= Seq::<char>::empty());
        assert(esc_str(x) == esc_char(c) + esc_str(x.skip(1)));
        assert(esc_str(x.skip(1)) == Seq::<char>::empty());
        assert(esc_char(c) + Seq::<char>::empty() =~= esc_char(c));
        assert(esc_str(t) + esc_char(c) =~= esc_char(c));
    } else {
        assert(t.push(c)[0] == t[0]);
        assert(t.push(c).skip(1) =~= t.skip(1).push(c));
        lemma_esc_str_snoc(t.skip(1), c);
        assert(esc_str(t.push(c)) =~= esc_str(t) + esc_char(c));
    }
}

/// Append one character's escaped form.
fn emit_esc_char(out: &mut Vec<char>, c: char)
    ensures
        final(out)@ == old(out)@ + esc_char(c),
{
    if c == '"' {
        out.push('\\');
        out.push('"');
        assert(out@ =~= old(out)@ + esc_char(c));
    } else if c == '\\' {
        out.push('\\');
        out.push('\\');
        assert(out@ =~= old(out)@ + esc_char(c));
    } else if c == '\n' {
        out.push('\\');
        out.push('n');
        assert(out@ =~= old(out)@ + esc_char(c));
    } else if c == '\t' {
        out.push('\\');
        out.push('t');
        assert(out@ =~= old(out)@ + esc_char(c));
    } else if c == '\r' {
        out.push('\\');
        out.push('r');
        assert(out@ =~= old(out)@ + esc_char(c));
    } else if c == '\u{0008}' {
        out.push('\\');
        out.push('b');
        assert(out@ =~= old(out)@ + esc_char(c));
    } else if c == '\u{000C}' {
        out.push('\\');
        out.push('f');
        assert(out@ =~= old(out)@ + esc_char(c));
    } else {
        out.push(c);
        assert(out@ =~= old(out)@ + esc_char(c));
    }
}

/// Append a printed string.
pub fn emit_string(out: &mut Vec<char>, s: &str)
    ensures
        final(out)@ == old(out)@ + print_string(s@),
{
    out.push('"');
    let n: usize = s.unicode_len();
    let mut i: usize = 0;
    assert(s@.take(0) =~= Seq::<char>::empty());
    assert(out@ =~= old(out)@ + seq!['"'] + esc_str(s@.take(0)));
    while i < n
        invariant
            n == s@.len(),
            0 <= i <= n,
            out@ == old(out)@ + seq!['"'] + esc_str(s@.take(i as int)),
        decreases n - i,
    {
        let c = s.get_char(i);
        emit_esc_char(out, c);
        proof {
            assert(s@.take(i + 1) =~= s@.take(i as int).push(s@[i as int]));
            lemma_esc_str_snoc(s@.take(i as int), s@[i as int]);
            assert(out@ =~= old(out)@ + seq!['"'] + esc_str(s@.take(i + 1)));
        }
        i = i + 1;
    }
    out.push('"');
    proof {
        assert(s@.take(n as int) =~= s@);
        assert(out@ =~= old(out)@ + print_string(s@));
    }
}

/// The decimal digit character for `d < 10`, executably.
fn dec_digit_x(d: usize) -> (r: char)
    requires
        d < 10,
    ensures
        r == dec_digit(d as nat),
{
    if d == 0 { '0' }
    else if d == 1 { '1' }
    else if d == 2 { '2' }
    else if d == 3 { '3' }
    else if d == 4 { '4' }
    else if d == 5 { '5' }
    else if d == 6 { '6' }
    else if d == 7 { '7' }
    else if d == 8 { '8' }
    else { '9' }
}

/// Append a printed unsigned integer.
pub fn emit_uint(out: &mut Vec<char>, n: usize)
    ensures
        final(out)@ == old(out)@ + print_uint(n as nat),
    decreases n,
{
    if n < 10 {
        out.push(dec_digit_x(n));
        assert(out@ =~= old(out)@ + print_uint(n as nat));
    } else {
        emit_uint(out, n / 10);
        out.push(dec_digit_x(n % 10));
        assert(out@ =~= old(out)@ + print_uint(n as nat));
    }
}

// ---------------------------------------------------------------------------
// Executable parsing
// ---------------------------------------------------------------------------

fn is_ws_x(c: char) -> (r: bool)
    ensures
        r == is_ws(c),
{
    c == ' ' || c == '\t' || c == '\n' || c == '\r'
}

fn is_digit_x(c: char) -> (r: bool)
    ensures
        r == is_digit(c),
{
    '0' <= c && c <= '9'
}

/// Drop leading whitespace.
pub fn read_ws<'a>(s: &'a [char]) -> (r: &'a [char])
    ensures
        r@ == skip_ws(s@),
{
    let mut rem: &[char] = s;
    while rem.len() > 0 && is_ws_x(*vstd::slice::slice_index_get(rem, 0))
        invariant
            skip_ws(s@) == skip_ws(rem@),
        decreases rem@.len(),
    {
        rem = vstd::slice::slice_subrange(rem, 1, rem.len());
    }
    rem
}

/// Read a string token, quotes and escapes included.
pub fn read_string<'a>(s: &'a [char]) -> (r: Option<(Vec<char>, &'a [char])>)
    ensures
        match r {
            Some(p) => parse_string(s@) == Some((p.0@, p.1@)),
            None => parse_string(s@) is None,
        },
{
    if s.len() == 0 || *vstd::slice::slice_index_get(s, 0) != '"' {
        return None;
    }
    let mut rem: &[char] = vstd::slice::slice_subrange(s, 1, s.len());
    let mut buf: Vec<char> = Vec::new();
    proof {
        assert(rem@ =~= s@.skip(1));
        if let Some((t, r2)) = parse_str_body(rem@) {
            assert(Seq::<char>::empty() + t =~= t);
        }
    }
    loop
        invariant
            s@.len() > 0,
            s@[0] == '"',
            match parse_str_body(rem@) {
                Some((t, r2)) => parse_str_body(s@.skip(1)) == Some((buf@ + t, r2)),
                None => parse_str_body(s@.skip(1)) is None,
            },
        decreases rem@.len(),
    {
        if rem.len() == 0 {
            return None;
        }
        let c = *vstd::slice::slice_index_get(rem, 0);
        if c == '"' {
            let out_rem = vstd::slice::slice_subrange(rem, 1, rem.len());
            proof {
                assert(parse_str_body(rem@) == Some((Seq::<char>::empty(), rem@.skip(1))));
                assert(buf@ + Seq::<char>::empty() =~= buf@);
                assert(out_rem@ =~= rem@.skip(1));
            }
            return Some((buf, out_rem));
        } else if c == '\\' {
            if rem.len() < 2 {
                return None;
            }
            let e = *vstd::slice::slice_index_get(rem, 1);
            let u: Option<char> = if e == '"' { Some('"') }
                else if e == '\\' { Some('\\') }
                else if e == '/' { Some('/') }
                else if e == 'n' { Some('\n') }
                else if e == 't' { Some('\t') }
                else if e == 'r' { Some('\r') }
                else if e == 'b' { Some('\u{0008}') }
                else if e == 'f' { Some('\u{000C}') }
                else { None };
            proof {
                assert(u == unesc(rem@[1]));
            }
            match u {
                Some(d) => {
                    let ghost old_buf = buf@;
                    let ghost old_rem = rem@;
                    buf.push(d);
                    rem = vstd::slice::slice_subrange(rem, 2, rem.len());
                    proof {
                        assert(rem@ =~= old_rem.skip(2));
                        if let Some((t, r2)) = parse_str_body(rem@) {
                            assert(old_buf + (seq![d] + t) =~= buf@ + t);
                        }
                    }
                },
                None => {
                    return None;
                },
            }
        } else {
            let ghost old_buf = buf@;
            let ghost old_rem = rem@;
            buf.push(c);
            rem = vstd::slice::slice_subrange(rem, 1, rem.len());
            proof {
                assert(rem@ =~= old_rem.skip(1));
                if let Some((t, r2)) = parse_str_body(rem@) {
                    assert(old_buf + (seq![c] + t) =~= buf@ + t);
                }
            }
        }
    }
}

proof fn lemma_digits_val_snoc(ds: Seq<char>, d: char)
    ensures
        digits_val(ds.push(d)) == digits_val(ds) * 10 + digit_val(d),
{
    assert(ds.push(d).drop_last() =~= ds);
    assert(ds.push(d).last() == d);
}

proof fn lemma_digits_val_mono(a: Seq<char>, b: Seq<char>)
    ensures
        digits_val(a + b) >= digits_val(a),
    decreases b.len(),
{
    if b.len() == 0 {
        assert(a + b =~= a);
    } else {
        assert(a + b =~= (a + b.drop_last()).push(b.last()));
        lemma_digits_val_snoc(a + b.drop_last(), b.last());
        lemma_digits_val_mono(a, b.drop_last());
    }
}

/// Read an unsigned integer token.
pub fn read_uint<'a>(s: &'a [char]) -> (r: Option<(usize, &'a [char])>)
    ensures
        match r {
            Some(p) => parse_uint(s@) == Some((p.0, p.1@)),
            None => parse_uint(s@) is None,
        },
{
    if s.len() == 0 || !is_digit_x(*vstd::slice::slice_index_get(s, 0)) {
        proof {
            assert(take_digits(s@).0 =~= Seq::<char>::empty());
        }
        return None;
    }
    let mut rem: &[char] = s;
    let mut val: usize = 0;
    let ghost mut pre: Seq<char> = Seq::empty();
    proof {
        assert(pre + take_digits(rem@).0 =~= take_digits(s@).0);
    }
    loop
        invariant
            s@.len() > 0,
            is_digit(s@[0]),
            val == digits_val(pre),
            take_digits(s@).0 == pre + take_digits(rem@).0,
            take_digits(s@).1 == take_digits(rem@).1,
            pre.len() > 0 || rem@ == s@,
            forall|i: int| 0 <= i < pre.len() ==> is_digit(#[trigger] pre[i]),
        decreases rem@.len(),
    {
        if rem.len() == 0 || !is_digit_x(*vstd::slice::slice_index_get(rem, 0)) {
            proof {
                assert(take_digits(rem@).0 =~= Seq::<char>::empty());
                assert(take_digits(s@).0 =~= pre);
                if pre.len() == 0 {
                    assert(is_digit(s@[0]));
                    assert(take_digits(s@).0.len() > 0);
                }
                assert(pre.len() > 0);
                assert(digits_val(take_digits(s@).0) <= usize::MAX as nat);
            }
            return Some((val, rem));
        }
        let c = *vstd::slice::slice_index_get(rem, 0);
        let dv: usize = (c as u32 as usize) - ('0' as u32 as usize);
        proof {
            assert(dv == digit_val(c));
            assert(dv <= 9);
        }
        let lim_q: usize = usize::MAX / 10;
        let lim_r: usize = usize::MAX % 10;
        if val > lim_q || (val == lim_q && dv > lim_r) {
            proof {
                vstd::arithmetic::div_mod::lemma_fundamental_div_mod(usize::MAX as int, 10);
                assert(val * 10 + dv > usize::MAX as nat) by (nonlinear_arith)
                    requires
                        usize::MAX as int == 10 * ((usize::MAX as int) / 10) + (usize::MAX as int) % 10,
                        lim_q == (usize::MAX as int) / 10,
                        lim_r == (usize::MAX as int) % 10,
                        val > lim_q || (val == lim_q && dv > lim_r),
                        dv >= 0,
                        val >= 0,
                {}
                lemma_digits_val_snoc(pre, c);
                assert(digits_val(pre.push(c)) > usize::MAX as nat);
                assert(take_digits(rem@).0 == seq![c] + take_digits(rem@.skip(1)).0);
                assert(take_digits(s@).0 =~= pre.push(c) + take_digits(rem@.skip(1)).0);
                lemma_digits_val_mono(pre.push(c), take_digits(rem@.skip(1)).0);
                assert(digits_val(take_digits(s@).0) > usize::MAX as nat);
            }
            return None;
        }
        proof {
            vstd::arithmetic::div_mod::lemma_fundamental_div_mod(usize::MAX as int, 10);
            assert(val * 10 + dv <= usize::MAX) by (nonlinear_arith)
                requires
                    usize::MAX as int == 10 * ((usize::MAX as int) / 10) + (usize::MAX as int) % 10,
                    lim_q == (usize::MAX as int) / 10,
                    lim_r == (usize::MAX as int) % 10,
                    !(val > lim_q || (val == lim_q && dv > lim_r)),
                    0 <= dv <= 9,
                    val >= 0,
            {}
        }
        let ghost old_pre = pre;
        let ghost old_rem = rem@;
        val = val * 10 + dv;
        proof {
            pre = pre.push(c);
            lemma_digits_val_snoc(old_pre, c);
            assert(take_digits(old_rem).0 == seq![c] + take_digits(old_rem.skip(1)).0);
            assert(old_pre + (seq![c] + take_digits(old_rem.skip(1)).0) =~= pre + take_digits(old_rem.skip(1)).0);
        }
        rem = vstd::slice::slice_subrange(rem, 1, rem.len());
        proof {
            assert(rem@ =~= old_rem.skip(1));
        }
    }
}

/// Read the word `null`.
fn read_null<'a>(s: &'a [char]) -> (r: Option<&'a [char]>)
    ensures
        match r {
            Some(rest) => parse_lit(s@, "null"@) == Some(rest@),
            None => parse_lit(s@, "null"@) is None,
        },
{
    proof {
        reveal_strlit("null");
    }
    if s.len() >= 4
        && *vstd::slice::slice_index_get(s, 0) == 'n'
        && *vstd::slice::slice_index_get(s, 1) == 'u'
        && *vstd::slice::slice_index_get(s, 2) == 'l'
        && *vstd::slice::slice_index_get(s, 3) == 'l'
    {
        let rest = vstd::slice::slice_subrange(s, 4, s.len());
        proof {
            assert(s@.subrange(0, 4) =~= "null"@);
        }
        Some(rest)
    } else {
        proof {
            if s@.len() >= 4 {
                assert(s@.subrange(0, 4)[0] == s@[0]);
                assert(s@.subrange(0, 4)[1] == s@[1]);
                assert(s@.subrange(0, 4)[2] == s@[2]);
                assert(s@.subrange(0, 4)[3] == s@[3]);
            }
        }
        None
    }
}

/// Read a string array, brackets included.
pub fn read_strarr<'a>(s: &'a [char]) -> (r: Option<(Vec<Vec<char>>, &'a [char])>)
    ensures
        match r {
            Some(p) => parse_strarr(s@) == Some((p.0.deep_view(), p.1@)),
            None => parse_strarr(s@) is None,
        },
{
    if s.len() == 0 || *vstd::slice::slice_index_get(s, 0) != '[' {
        return None;
    }
    let body = vstd::slice::slice_subrange(s, 1, s.len());
    proof {
        assert(body@ =~= s@.skip(1));
    }
    let mut rem: &[char] = read_ws(body);
    if rem.len() > 0 && *vstd::slice::slice_index_get(rem, 0) == ']' {
        let out = vstd::slice::slice_subrange(rem, 1, rem.len());
        let empty_arr: Vec<Vec<char>> = Vec::new();
        proof {
            assert(out@ =~= rem@.skip(1));
            assert(empty_arr.deep_view() =~~= Seq::<Seq<char>>::empty());
        }
        return Some((empty_arr, out));
    }
    let mut acc: Vec<Vec<char>> = Vec::new();
    proof {
        if let Some((tail, r2)) = parse_strarr_elems(rem@) {
            assert(acc.deep_view() + tail =~~= tail);
        }
    }
    loop
        invariant
            match parse_strarr_elems(rem@) {
                Some((tail, r2)) => parse_strarr(s@) == Some((acc.deep_view() + tail, r2)),
                None => parse_strarr(s@) is None,
            },
        decreases rem@.len(),
    {
        match read_string(rem) {
            None => {
                return None;
            },
            Some((e, r)) => {
                let r1 = read_ws(r);
                if r1.len() == 0 {
                    return None;
                }
                let c2 = *vstd::slice::slice_index_get(r1, 0);
                if c2 == ',' {
                    proof {
                        lemma_parse_string_len(rem@);
                        lemma_skip_ws_len(r@);
                        lemma_skip_ws_len(r1@.skip(1));
                    }
                    let ghost old_dv = acc.deep_view();
                    acc.push(e);
                    let after = vstd::slice::slice_subrange(r1, 1, r1.len());
                    proof {
                        assert(after@ =~= r1@.skip(1));
                    }
                    rem = read_ws(after);
                    proof {
                        assert(acc.deep_view() =~~= old_dv.push(e@));
                        if let Some((tail, r2)) = parse_strarr_elems(rem@) {
                            assert(old_dv + (seq![e@] + tail) =~~= acc.deep_view() + tail);
                        }
                    }
                } else if c2 == ']' {
                    let ghost old_dv = acc.deep_view();
                    acc.push(e);
                    let out = vstd::slice::slice_subrange(r1, 1, r1.len());
                    proof {
                        assert(out@ =~= r1@.skip(1));
                        assert(acc.deep_view() =~~= old_dv.push(e@));
                        assert(parse_strarr_elems(rem@) == Some((seq![e@], r1@.skip(1))));
                        assert(old_dv + seq![e@] =~~= acc.deep_view());
                    }
                    return Some((acc, out));
                } else {
                    return None;
                }
            },
        }
    }
}

/// Read a scalar value, dispatched on its first character.
pub fn read_scalar<'a>(s: &'a [char]) -> (r: Option<(Scalar, &'a [char])>)
    ensures
        match r {
            Some(p) => parse_scalar(s@) == Some((p.0@, p.1@)),
            None => parse_scalar(s@) is None,
        },
{
    if s.len() == 0 {
        return None;
    }
    let c = *vstd::slice::slice_index_get(s, 0);
    if c == '"' {
        match read_string(s) {
            Some((t, r)) => Some((Scalar::Str(t), r)),
            None => None,
        }
    } else if is_digit_x(c) {
        match read_uint(s) {
            Some((n, r)) => Some((Scalar::UInt(n), r)),
            None => None,
        }
    } else if c == 'n' {
        match read_null(s) {
            Some(r) => Some((Scalar::Null, r)),
            None => None,
        }
    } else if c == '[' {
        match read_strarr(s) {
            Some((a, r)) => Some((Scalar::StrArr(a), r)),
            None => None,
        }
    } else {
        None
    }
}

/// Read an object of scalars, braces included.
pub fn read_flatobj<'a>(s: &'a [char]) -> (r: Option<(Vec<(Vec<char>, Scalar)>, &'a [char])>)
    ensures
        match r {
            Some(p) => parse_flatobj(s@) == Some((flat_entries_view(p.0@), p.1@)),
            None => parse_flatobj(s@) is None,
        },
{
    if s.len() == 0 || *vstd::slice::slice_index_get(s, 0) != '{' {
        return None;
    }
    let body = vstd::slice::slice_subrange(s, 1, s.len());
    proof {
        assert(body@ =~= s@.skip(1));
    }
    let mut rem: &[char] = read_ws(body);
    if rem.len() > 0 && *vstd::slice::slice_index_get(rem, 0) == '}' {
        let out = vstd::slice::slice_subrange(rem, 1, rem.len());
        let empty_es: Vec<(Vec<char>, Scalar)> = Vec::new();
        proof {
            assert(out@ =~= rem@.skip(1));
            assert(flat_entries_view(empty_es@) =~= Seq::<(Seq<char>, ScalarV)>::empty());
        }
        return Some((empty_es, out));
    }
    let mut acc: Vec<(Vec<char>, Scalar)> = Vec::new();
    proof {
        if let Some((tail, r2)) = parse_flat_entries(rem@) {
            assert(flat_entries_view(acc@) + tail =~= tail);
        }
    }
    loop
        invariant
            match parse_flat_entries(rem@) {
                Some((tail, r2)) => parse_flatobj(s@) == Some((flat_entries_view(acc@) + tail, r2)),
                None => parse_flatobj(s@) is None,
            },
        decreases rem@.len(),
    {
        match read_string(rem) {
            None => {
                return None;
            },
            Some((k, r)) => {
                let r1 = read_ws(r);
                if r1.len() == 0 || *vstd::slice::slice_index_get(r1, 0) != ':' {
                    return None;
                }
                let after_colon = vstd::slice::slice_subrange(r1, 1, r1.len());
                proof {
                    assert(after_colon@ =~= r1@.skip(1));
                }
                let at_v = read_ws(after_colon);
                match read_scalar(at_v) {
                    None => {
                        return None;
                    },
                    Some((v, r2)) => {
                        let r3 = read_ws(r2);
                        if r3.len() == 0 {
                            return None;
                        }
                        let c2 = *vstd::slice::slice_index_get(r3, 0);
                        if c2 == ',' {
                            proof {
                                lemma_parse_string_len(rem@);
                                lemma_skip_ws_len(r@);
                                lemma_parse_scalar_len(at_v@);
                                lemma_skip_ws_len(r1@.skip(1));
                                lemma_skip_ws_len(r2@);
                                lemma_skip_ws_len(r3@.skip(1));
                            }
                            let ghost old_ev = flat_entries_view(acc@);
                            acc.push((k, v));
                            let after = vstd::slice::slice_subrange(r3, 1, r3.len());
                            proof {
                                assert(after@ =~= r3@.skip(1));
                            }
                            rem = read_ws(after);
                            proof {
                                assert(flat_entries_view(acc@) =~= old_ev.push((acc@.last().0@, acc@.last().1@)));
                                if let Some((tail, r4)) = parse_flat_entries(rem@) {
                                    assert(old_ev + (seq![(acc@.last().0@, acc@.last().1@)] + tail)
                                        =~= flat_entries_view(acc@) + tail);
                                }
                            }
                        } else if c2 == '}' {
                            let ghost old_ev = flat_entries_view(acc@);
                            acc.push((k, v));
                            let out = vstd::slice::slice_subrange(r3, 1, r3.len());
                            proof {
                                assert(out@ =~= r3@.skip(1));
                                assert(flat_entries_view(acc@) =~= old_ev.push((acc@.last().0@, acc@.last().1@)));
                                assert(old_ev + seq![(acc@.last().0@, acc@.last().1@)] =~= flat_entries_view(acc@));
                            }
                            return Some((acc, out));
                        } else {
                            return None;
                        }
                    },
                }
            },
        }
    }
}

/// Read a top-level field value.
pub fn read_top_val<'a>(s: &'a [char]) -> (r: Option<(TopVal, &'a [char])>)
    ensures
        match r {
            Some(p) => parse_top_val(s@) == Some((p.0@, p.1@)),
            None => parse_top_val(s@) is None,
        },
{
    if s.len() > 0 && *vstd::slice::slice_index_get(s, 0) == '{' {
        match read_flatobj(s) {
            Some((es, r)) => Some((TopVal::Obj(es), r)),
            None => None,
        }
    } else {
        match read_scalar(s) {
            Some((v, r)) => Some((TopVal::Sc(v), r)),
            None => None,
        }
    }
}

/// Read the top-level object of a line, braces included.
pub fn read_topobj<'a>(s: &'a [char]) -> (r: Option<(Vec<(Vec<char>, TopVal)>, &'a [char])>)
    ensures
        match r {
            Some(p) => parse_topobj(s@) == Some((top_entries_view(p.0@), p.1@)),
            None => parse_topobj(s@) is None,
        },
{
    if s.len() == 0 || *vstd::slice::slice_index_get(s, 0) != '{' {
        return None;
    }
    let body = vstd::slice::slice_subrange(s, 1, s.len());
    proof {
        assert(body@ =~= s@.skip(1));
    }
    let mut rem: &[char] = read_ws(body);
    if rem.len() > 0 && *vstd::slice::slice_index_get(rem, 0) == '}' {
        let out = vstd::slice::slice_subrange(rem, 1, rem.len());
        let empty_es: Vec<(Vec<char>, TopVal)> = Vec::new();
        proof {
            assert(out@ =~= rem@.skip(1));
            assert(top_entries_view(empty_es@) =~= Seq::<(Seq<char>, TopValV)>::empty());
        }
        return Some((empty_es, out));
    }
    let mut acc: Vec<(Vec<char>, TopVal)> = Vec::new();
    proof {
        if let Some((tail, r2)) = parse_top_entries(rem@) {
            assert(top_entries_view(acc@) + tail =~= tail);
        }
    }
    loop
        invariant
            match parse_top_entries(rem@) {
                Some((tail, r2)) => parse_topobj(s@) == Some((top_entries_view(acc@) + tail, r2)),
                None => parse_topobj(s@) is None,
            },
        decreases rem@.len(),
    {
        match read_string(rem) {
            None => {
                return None;
            },
            Some((k, r)) => {
                let r1 = read_ws(r);
                if r1.len() == 0 || *vstd::slice::slice_index_get(r1, 0) != ':' {
                    return None;
                }
                let after_colon = vstd::slice::slice_subrange(r1, 1, r1.len());
                proof {
                    assert(after_colon@ =~= r1@.skip(1));
                }
                let at_v = read_ws(after_colon);
                match read_top_val(at_v) {
                    None => {
                        return None;
                    },
                    Some((v, r2)) => {
                        let r3 = read_ws(r2);
                        if r3.len() == 0 {
                            return None;
                        }
                        let c2 = *vstd::slice::slice_index_get(r3, 0);
                        if c2 == ',' {
                            proof {
                                lemma_parse_string_len(rem@);
                                lemma_skip_ws_len(r@);
                                lemma_parse_top_val_len(at_v@);
                                lemma_skip_ws_len(r1@.skip(1));
                                lemma_skip_ws_len(r2@);
                                lemma_skip_ws_len(r3@.skip(1));
                            }
                            let ghost old_ev = top_entries_view(acc@);
                            acc.push((k, v));
                            let after = vstd::slice::slice_subrange(r3, 1, r3.len());
                            proof {
                                assert(after@ =~= r3@.skip(1));
                            }
                            rem = read_ws(after);
                            proof {
                                assert(top_entries_view(acc@) =~= old_ev.push((acc@.last().0@, acc@.last().1@)));
                                if let Some((tail, r4)) = parse_top_entries(rem@) {
                                    assert(old_ev + (seq![(acc@.last().0@, acc@.last().1@)] + tail)
                                        =~= top_entries_view(acc@) + tail);
                                }
                            }
                        } else if c2 == '}' {
                            let ghost old_ev = top_entries_view(acc@);
                            acc.push((k, v));
                            let out = vstd::slice::slice_subrange(r3, 1, r3.len());
                            proof {
                                assert(out@ =~= r3@.skip(1));
                                assert(top_entries_view(acc@) =~= old_ev.push((acc@.last().0@, acc@.last().1@)));
                                assert(old_ev + seq![(acc@.last().0@, acc@.last().1@)] =~= top_entries_view(acc@));
                            }
                            return Some((acc, out));
                        } else {
                            return None;
                        }
                    },
                }
            },
        }
    }
}

/// Read a whole line: one top-level object and nothing else but whitespace.
pub fn read_line_obj(s: &[char]) -> (r: Option<Vec<(Vec<char>, TopVal)>>)
    ensures
        match r {
            Some(es) => parse_line(s@) == Some(top_entries_view(es@)),
            None => parse_line(s@) is None,
        },
{
    let s1 = read_ws(s);
    match read_topobj(s1) {
        Some((es, rest)) => {
            let r2 = read_ws(rest);
            if r2.len() == 0 {
                Some(es)
            } else {
                None
            }
        },
        None => None,
    }
}

} // verus!



//! The envelope codec: between a [`Message`] and one line of wire text.
//!
//! Encoding prints the envelope as one top-level object — `src`, `dest`,
//! `body` — whose body object carries the `type` discriminator, the
//! correlation fields and the variant's own fields, all flattened at the
//! same level.  Decoding parses a line into entries and looks the fields
//! up by key, so the order of fields on the wire does not matter.

use vstd::prelude::*;
use crate::protocol::{Error, InitData, EchoData, Message, Payload, MessageV, PayloadV, InitDataV,
    EchoDataV};
use crate::wire::{ScalarV, TopValV, print_topobj, parse_line, lemma_line_rt, print_string,
    print_strarr, print_strarr_elems, print_flatobj, print_flat_entries, print_top_entries,
    print_scalar, Scalar, TopVal, flat_entries_view, top_entries_view, read_line_obj,
    emit_string, emit_uint};

verus! {

// ---------------------------------------------------------------------------
// Encoding, as specification
// ---------------------------------------------------------------------------

/// An optional correlation field on the wire: a number, or `null`.
pub open spec fn opt_scalar(o: Option<usize>) -> ScalarV {
    match o {
        Option::Some(n) => ScalarV::UInt(n),
        Option::None => ScalarV::Null,
    }
}

/// The body entries of a handshake message, `type` first.
pub open spec fn init_body_entries(p: PayloadV<InitDataV>) -> Seq<(Seq<char>, ScalarV)> {
    match p.typed_data {
        InitDataV::Init { node_id, node_ids } => seq![
            ("type"@, ScalarV::Str("init"@)),
            ("msg_id"@, opt_scalar(p.msg_id)),
            ("in_reply_to"@, opt_scalar(p.in_reply_to)),
            ("node_id"@, ScalarV::Str(node_id)),
            ("node_ids"@, ScalarV::StrArr(node_ids)),
        ],
        InitDataV::InitOk => seq![
            ("type"@, ScalarV::Str("init_ok"@)),
            ("msg_id"@, opt_scalar(p.msg_id)),
            ("in_reply_to"@, opt_scalar(p.in_reply_to)),
        ],
    }
}

/// The body entries of an echo message, `type` first.
pub open spec fn echo_body_entries(p: PayloadV<EchoDataV>) -> Seq<(Seq<char>, ScalarV)> {
    match p.typed_data {
        EchoDataV::Echo { echo } => seq![
            ("type"@, ScalarV::Str("echo"@)),
            ("msg_id"@, opt_scalar(p.msg_id)),
            ("in_reply_to"@, opt_scalar(p.in_reply_to)),
            ("echo"@, ScalarV::Str(echo)),
        ],
        EchoDataV::EchoOk { echo } => seq![
            ("type"@, ScalarV::Str("echo_ok"@)),
            ("msg_id"@, opt_scalar(p.msg_id)),
            ("in_reply_to"@, opt_scalar(p.in_reply_to)),
            ("echo"@, ScalarV::Str(echo)),
        ],
    }
}

/// The top-level entries of a handshake envelope.
pub open spec fn top_entries_init(m: MessageV<InitDataV>) -> Seq<(Seq<char>, TopValV)> {
    seq![
        ("src"@, TopValV::Sc(ScalarV::Str(m.src))),
        ("dest"@, TopValV::Sc(ScalarV::Str(m.dest))),
        ("body"@, TopValV::Obj(init_body_entries(m.body))),
    ]
}

/// The top-level entries of an echo envelope.
pub open spec fn top_entries_echo(m: MessageV<EchoDataV>) -> Seq<(Seq<char>, TopValV)> {
    seq![
        ("src"@, TopValV::Sc(ScalarV::Str(m.src))),
        ("dest"@, TopValV::Sc(ScalarV::Str(m.dest))),
        ("body"@, TopValV::Obj(echo_body_entries(m.body))),
    ]
}

/// The line a handshake envelope encodes to.
pub open spec fn spec_encode_init(m: MessageV<InitDataV>) -> Seq<char> {
    print_topobj(top_entries_init(m))
}

/// The line an echo envelope encodes to.
pub open spec fn spec_encode_echo(m: MessageV<EchoDataV>) -> Seq<char> {
    print_topobj(top_entries_echo(m))
}

// ---------------------------------------------------------------------------
// Decoding, as specification
// ---------------------------------------------------------------------------

/// The value of the first entry with the given key, if any.
pub open spec fn lookup<V>(es: Seq<(Seq<char>, V)>, k: Seq<char>) -> Option<V>
    decreases es.len(),
{
    if es.len() == 0 {
        None
    } else if es[0].0 == k {
        Some(es[0].1)
    } else {
        lookup(es.skip(1), k)
    }
}

/// An optional correlation field: absent or `null` is `None`; a number is
/// `Some`; any other shape is malformed.
pub open spec fn opt_field(es: Seq<(Seq<char>, ScalarV)>, k: Seq<char>) -> Option<Option<usize>> {
    match lookup(es, k) {
        None => Some(Option::None),
        Some(ScalarV::Null) => Some(Option::None),
        Some(ScalarV::UInt(n)) => Some(Option::Some(n)),
        Some(_) => None,
    }
}

/// A required string field.
pub open spec fn str_field(es: Seq<(Seq<char>, ScalarV)>, k: Seq<char>) -> Option<Seq<char>> {
    match lookup(es, k) {
        Some(ScalarV::Str(s)) => Some(s),
        _ => None,
    }
}

/// The handshake body a body object decodes to.
pub open spec fn init_data_from(es: Seq<(Seq<char>, ScalarV)>) -> Option<InitDataV> {
    match str_field(es, "type"@) {
        Some(t) => if t == "init"@ {
            match str_field(es, "node_id"@) {
                Some(node_id) => match lookup(es, "node_ids"@) {
                    Some(ScalarV::StrArr(node_ids)) => Some(InitDataV::Init { node_id, node_ids }),
                    _ => None,
                },
                None => None,
            }
        } else if t == "init_ok"@ {
            Some(InitDataV::InitOk)
        } else {
            None
        },
        None => None,
    }
}

/// The echo body a body object decodes to.
pub open spec fn echo_data_from(es: Seq<(Seq<char>, ScalarV)>) -> Option<EchoDataV> {
    match str_field(es, "type"@) {
        Some(t) => if t == "echo"@ {
            match str_field(es, "echo"@) {
                Some(echo) => Some(EchoDataV::Echo { echo }),
                None => None,
            }
        } else if t == "echo_ok"@ {
            match str_field(es, "echo"@) {
                Some(echo) => Some(EchoDataV::EchoOk { echo }),
                None => None,
            }
        } else {
            None
        },
        None => None,
    }
}

/// A required top-level string field.
pub open spec fn top_str_field(es: Seq<(Seq<char>, TopValV)>, k: Seq<char>) -> Option<Seq<char>> {
    match lookup(es, k) {
        Some(TopValV::Sc(ScalarV::Str(s))) => Some(s),
        _ => None,
    }
}

/// The body object of the envelope.
pub open spec fn body_field(es: Seq<(Seq<char>, TopValV)>) -> Option<Seq<(Seq<char>, ScalarV)>> {
    match lookup(es, "body"@) {
        Some(TopValV::Obj(bes)) => Some(bes),
        _ => None,
    }
}

/// The handshake envelope the top-level entries decode to.
pub open spec fn msg_from_top_init(es: Seq<(Seq<char>, TopValV)>) -> Option<MessageV<InitDataV>> {
    match (top_str_field(es, "src"@), top_str_field(es, "dest"@), body_field(es)) {
        (Some(src), Some(dest), Some(bes)) => {
            match (opt_field(bes, "msg_id"@), opt_field(bes, "in_reply_to"@), init_data_from(bes)) {
                (Some(msg_id), Some(in_reply_to), Some(typed_data)) => Some(MessageV {
                    src,
                    dest,
                    body: PayloadV { msg_id, in_reply_to, typed_data },
                }),
                _ => None,
            }
        },
        _ => None,
    }
}

/// The echo envelope the top-level entries decode to.
pub open spec fn msg_from_top_echo(es: Seq<(Seq<char>, TopValV)>) -> Option<MessageV<EchoDataV>> {
    match (top_str_field(es, "src"@), top_str_field(es, "dest"@), body_field(es)) {
        (Some(src), Some(dest), Some(bes)) => {
            match (opt_field(bes, "msg_id"@), opt_field(bes, "in_reply_to"@), echo_data_from(bes)) {
                (Some(msg_id), Some(in_reply_to), Some(typed_data)) => Some(MessageV {
                    src,
                    dest,
                    body: PayloadV { msg_id, in_reply_to, typed_data },
                }),
                _ => None,
            }
        },
        _ => None,
    }
}

/// The handshake envelope a line decodes to.
pub open spec fn spec_decode_init(s: Seq<char>) -> Option<MessageV<InitDataV>> {
    match parse_line(s) {
        Some(es) => msg_from_top_init(es),
        None => None,
    }
}

/// The echo envelope a line decodes to.
pub open spec fn spec_decode_echo(s: Seq<char>) -> Option<MessageV<EchoDataV>> {
    match parse_line(s) {
        Some(es) => msg_from_top_echo(es),
        None => None,
    }
}

// ---------------------------------------------------------------------------
// The codec round-trips
// ---------------------------------------------------------------------------

proof fn lemma_lookup_top(m_src: Seq<char>, m_dest: Seq<char>, bes: Seq<(Seq<char>, ScalarV)>)
    ensures
        ({
            let es = seq![
                ("src"@, TopValV::Sc(ScalarV::Str(m_src))),
                ("dest"@, TopValV::Sc(ScalarV::Str(m_dest))),
                ("body"@, TopValV::Obj(bes)),
            ];
            top_str_field(es, "src"@) == Some(m_src)
                && top_str_field(es, "dest"@) == Some(m_dest)
                && body_field(es) == Some(bes)
        }),
{
    reveal_strlit("src");
    reveal_strlit("dest");
    reveal_strlit("body");
    let es = seq![
        ("src"@, TopValV::Sc(ScalarV::Str(m_src))),
        ("dest"@, TopValV::Sc(ScalarV::Str(m_dest))),
        ("body"@, TopValV::Obj(bes)),
    ];
    let es1 = es.skip(1);
    let es2 = es1.skip(1);
    let es3 = es2.skip(1);
    assert(es1.len() == 2 && es1[0] == es[1] && es1[1] == es[2]);
    assert(es2.len() == 1 && es2[0] == es[2]);
    assert("src"@.len() == 3 && "dest"@.len() == 4 && "body"@.len() == 4);
    assert("dest"@[0] == 'd' && "body"@[0] == 'b');
    assert("dest"@ != "body"@);
    assert(lookup(es, "src"@) == Some(es[0].1));
    assert(lookup(es, "dest"@) == lookup(es1, "dest"@));
    assert(lookup(es1, "dest"@) == Some(es1[0].1));
    assert(lookup(es, "body"@) == lookup(es1, "body"@));
    assert(lookup(es1, "body"@) == lookup(es2, "body"@));
    assert(lookup(es2, "body"@) == Some(es2[0].1));
}

proof fn lemma_lookup_init_body(p: PayloadV<InitDataV>)
    ensures
        opt_field(init_body_entries(p), "msg_id"@) == Some(p.msg_id),
        opt_field(init_body_entries(p), "in_reply_to"@) == Some(p.in_reply_to),
        init_data_from(init_body_entries(p)) == Some(p.typed_data),
{
    reveal_strlit("type");
    reveal_strlit("msg_id");
    reveal_strlit("in_reply_to");
    reveal_strlit("node_id");
    reveal_strlit("node_ids");
    reveal_strlit("init");
    reveal_strlit("init_ok");
    let es = init_body_entries(p);
    assert("type"@.len() == 4 && "msg_id"@.len() == 6 && "in_reply_to"@.len() == 11
        && "node_id"@.len() == 7 && "node_ids"@.len() == 8);
    assert("init"@.len() == 4 && "init_ok"@.len() == 7);
    let es1 = es.skip(1);
    let es2 = es1.skip(1);
    match p.typed_data {
        InitDataV::Init { node_id, node_ids } => {
            assert(es.len() == 5);
            let es3 = es2.skip(1);
            let es4 = es3.skip(1);
            assert(es1.len() == 4 && es1[0] == es[1] && es1[1] == es[2] && es1[2] == es[3]
                && es1[3] == es[4]);
            assert(es2.len() == 3 && es2[0] == es[2] && es2[1] == es[3] && es2[2] == es[4]);
            assert(es3.len() == 2 && es3[0] == es[3] && es3[1] == es[4]);
            assert(es4.len() == 1 && es4[0] == es[4]);
            assert(lookup(es, "type"@) == Some(es[0].1));
            assert(lookup(es, "msg_id"@) == lookup(es1, "msg_id"@));
            assert(lookup(es1, "msg_id"@) == Some(es1[0].1));
            assert(lookup(es, "in_reply_to"@) == lookup(es1, "in_reply_to"@));
            assert(lookup(es1, "in_reply_to"@) == lookup(es2, "in_reply_to"@));
            assert(lookup(es2, "in_reply_to"@) == Some(es2[0].1));
            assert(lookup(es, "node_id"@) == lookup(es1, "node_id"@));
            assert(lookup(es1, "node_id"@) == lookup(es2, "node_id"@));
            assert(lookup(es2, "node_id"@) == lookup(es3, "node_id"@));
            assert(lookup(es3, "node_id"@) == Some(es3[0].1));
            assert(lookup(es, "node_ids"@) == lookup(es1, "node_ids"@));
            assert(lookup(es1, "node_ids"@) == lookup(es2, "node_ids"@));
            assert(lookup(es2, "node_ids"@) == lookup(es3, "node_ids"@));
            assert(lookup(es3, "node_ids"@) == lookup(es4, "node_ids"@));
            assert(lookup(es4, "node_ids"@) == Some(es4[0].1));
            assert(str_field(es, "type"@) == Some("init"@));
            assert("init"@ != "init_ok"@);
        },
        InitDataV::InitOk => {
            assert(es.len() == 3);
            assert(es1.len() == 2 && es1[0] == es[1] && es1[1] == es[2]);
            assert(es2.len() == 1 && es2[0] == es[2]);
            assert(lookup(es, "type"@) == Some(es[0].1));
            assert(lookup(es, "msg_id"@) == lookup(es1, "msg_id"@));
            assert(lookup(es1, "msg_id"@) == Some(es1[0].1));
            assert(lookup(es, "in_reply_to"@) == lookup(es1, "in_reply_to"@));
            assert(lookup(es1, "in_reply_to"@) == lookup(es2, "in_reply_to"@));
            assert(lookup(es2, "in_reply_to"@) == Some(es2[0].1));
            assert(str_field(es, "type"@) == Some("init_ok"@));
            assert("init_ok"@ != "init"@);
        },
    }
}

proof fn lemma_lookup_echo_body(p: PayloadV<EchoDataV>)
    ensures
        opt_field(echo_body_entries(p), "msg_id"@) == Some(p.msg_id),
        opt_field(echo_body_entries(p), "in_reply_to"@) == Some(p.in_reply_to),
        echo_data_from(echo_body_entries(p)) == Some(p.typed_data),
{
    reveal_strlit("type");
    reveal_strlit("msg_id");
    reveal_strlit("in_reply_to");
    reveal_strlit("echo");
    reveal_strlit("echo_ok");
    let es = echo_body_entries(p);
    assert("type"@.len() == 4 && "msg_id"@.len() == 6 && "in_reply_to"@.len() == 11
        && "echo"@.len() == 4 && "echo_ok"@.len() == 7);
    assert("type"@[0] == 't' && "echo"@[0] == 'e');
    assert("echo"@ != "type"@);
    let es1 = es.skip(1);
    let es2 = es1.skip(1);
    let es3 = es2.skip(1);
    assert(es.len() == 4);
    assert(es1.len() == 3 && es1[0] == es[1] && es1[1] == es[2] && es1[2] == es[3]);
    assert(es2.len() == 2 && es2[0] == es[2] && es2[1] == es[3]);
    assert(es3.len() == 1 && es3[0] == es[3]);
    assert(lookup(es, "type"@) == Some(es[0].1));
    assert(lookup(es, "msg_id"@) == lookup(es1, "msg_id"@));
    assert(lookup(es1, "msg_id"@) == Some(es1[0].1));
    assert(lookup(es, "in_reply_to"@) == lookup(es1, "in_reply_to"@));
    assert(lookup(es1, "in_reply_to"@) == lookup(es2, "in_reply_to"@));
    assert(lookup(es2, "in_reply_to"@) == Some(es2[0].1));
    assert(lookup(es, "echo"@) == lookup(es1, "echo"@));
    assert(lookup(es1, "echo"@) == lookup(es2, "echo"@));
    assert(lookup(es2, "echo"@) == lookup(es3, "echo"@));
    assert(lookup(es3, "echo"@) == Some(es3[0].1));
    match p.typed_data {
        EchoDataV::Echo { echo } => {
            assert(str_field(es, "type"@) == Some("echo"@));
            assert("echo"@ != "echo_ok"@);
        },
        EchoDataV::EchoOk { echo } => {
            assert(str_field(es, "type"@) == Some("echo_ok"@));
            assert("echo_ok"@ != "echo"@);
        },
    }
}

/// Round-trip law for the handshake phase: any envelope, encoded and then
/// decoded, comes back equal, field for field.
pub proof fn lemma_codec_rt_init(m: MessageV<InitDataV>)
    ensures
        spec_decode_init(spec_encode_init(m)) == Some(m),
{
    lemma_line_rt(top_entries_init(m));
    lemma_lookup_top(m.src, m.dest, init_body_entries(m.body));
    lemma_lookup_init_body(m.body);
}

/// Round-trip law for the echo phase: any envelope, encoded and then
/// decoded, comes back equal, field for field.
pub proof fn lemma_codec_rt_echo(m: MessageV<EchoDataV>)
    ensures
        spec_decode_echo(spec_encode_echo(m)) == Some(m),
{
    lemma_line_rt(top_entries_echo(m));
    lemma_lookup_top(m.src, m.dest, echo_body_entries(m.body));
    lemma_lookup_echo_body(m.body);
}

// ---------------------------------------------------------------------------
// Executable decoding
// ---------------------------------------------------------------------------

/// Relies on `String`'s `FromIterator` impl: collecting characters yields
/// the string of exactly those characters, in order.
#[verifier::external_body]
fn chars_to_string(v: &[char]) -> (r: String)
    ensures
        r@ == v@,
{
    v.iter().collect()
}

/// Whether a parsed key equals a fixed name.
fn chars_eq_str(v: &Vec<char>, s: &str) -> (r: bool)
    ensures
        r == (v@ == s@),
{
    let n: usize = s.unicode_len();
    if v.len() != n {
        return false;
    }
    let mut i: usize = 0;
    while i < n
        invariant
            n == s@.len(),
            v@.len() == n,
            0 <= i <= n,
            forall|j: int| 0 <= j < i ==> v@[j] == s@[j],
        decreases n - i,
    {
        if v[i] != s.get_char(i) {
            assert(v@ != s@) by {
                if v@ == s@ {
                    assert(v@[i as int] == s@[i as int]);
                }
            }
            return false;
        }
        i = i + 1;
    }
    assert(v@ =~= s@);
    true
}

/// The first top-level entry with the given key.
fn lookup_top<'a>(es: &'a Vec<(Vec<char>, TopVal)>, key: &str) -> (r: Option<&'a TopVal>)
    ensures
        match r {
            Some(v) => lookup(top_entries_view(es@), key@) == Some(v@),
            None => lookup(top_entries_view(es@), key@) is None,
        },
{
    let ghost full = top_entries_view(es@);
    let mut i: usize = 0;
    proof {
        assert(full.skip(0) =~= full);
    }
    while i < es.len()
        invariant
            0 <= i <= es@.len(),
            full == top_entries_view(es@),
            lookup(full, key@) == lookup(full.skip(i as int), key@),
        decreases es@.len() - i,
    {
        proof {
            assert(full.skip(i as int)[0] == full[i as int]);
        }
        if chars_eq_str(&es[i].0, key) {
            return Some(&es[i].1);
        }
        proof {
            assert(full.skip(i as int).skip(1) =~= full.skip(i + 1));
        }
        i = i + 1;
    }
    proof {
        assert(full.skip(es@.len() as int).len() == 0);
    }
    None
}

/// The first body entry with the given key.
fn lookup_flat<'a>(es: &'a Vec<(Vec<char>, Scalar)>, key: &str) -> (r: Option<&'a Scalar>)
    ensures
        match r {
            Some(v) => lookup(flat_entries_view(es@), key@) == Some(v@),
            None => lookup(flat_entries_view(es@), key@) is None,
        },
{
    let ghost full = flat_entries_view(es@);
    let mut i: usize = 0;
    proof {
        assert(full.skip(0) =~= full);
    }
    while i < es.len()
        invariant
            0 <= i <= es@.len(),
            full == flat_entries_view(es@),
            lookup(full, key@) == lookup(full.skip(i as int), key@),
        decreases es@.len() - i,
    {
        proof {
            assert(full.skip(i as int)[0] == full[i as int]);
        }
        if chars_eq_str(&es[i].0, key) {
            return Some(&es[i].1);
        }
        proof {
            assert(full.skip(i as int).skip(1) =~= full.skip(i + 1));
        }
        i = i + 1;
    }
    proof {
        assert(full.skip(es@.len() as int).len() == 0);
    }
    None
}

/// An optional correlation field of the body object.
fn read_opt_field(es: &Vec<(Vec<char>, Scalar)>, key: &str) -> (r: Result<Option<usize>, Error>)
    ensures
        match r {
            Ok(o) => opt_field(flat_entries_view(es@), key@) == Some(o),
            Err(e) => e == Error::MalformedMessage
                && opt_field(flat_entries_view(es@), key@) is None,
        },
{
    match lookup_flat(es, key) {
        None => Ok(None),
        Some(v) => match v {
            Scalar::Null => Ok(None),
            Scalar::UInt(n) => Ok(Some(*n)),
            _ => Err(Error::MalformedMessage),
        },
    }
}

/// Decode one line as a handshake envelope.
pub fn decode_init(line: &[char]) -> (r: Result<Message<InitData>, Error>)
    ensures
        match r {
            Ok(m) => spec_decode_init(line@) == Some(m@),
            Err(e) => e == Error::MalformedMessage && spec_decode_init(line@) is None,
        },
{
    let es = match read_line_obj(line) {
        Some(es) => es,
        None => {
            return Err(Error::MalformedMessage);
        },
    };
    let src_chars = match lookup_top(&es, "src") {
        Some(TopVal::Sc(Scalar::Str(s))) => s,
        _ => {
            return Err(Error::MalformedMessage);
        },
    };
    let dest_chars = match lookup_top(&es, "dest") {
        Some(TopVal::Sc(Scalar::Str(s))) => s,
        _ => {
            return Err(Error::MalformedMessage);
        },
    };
    let bes = match lookup_top(&es, "body") {
        Some(TopVal::Obj(b)) => b,
        _ => {
            return Err(Error::MalformedMessage);
        },
    };
    let msg_id = match read_opt_field(bes, "msg_id") {
        Ok(o) => o,
        Err(e) => {
            return Err(e);
        },
    };
    let in_reply_to = match read_opt_field(bes, "in_reply_to") {
        Ok(o) => o,
        Err(e) => {
            return Err(e);
        },
    };
    let tchars = match lookup_flat(bes, "type") {
        Some(Scalar::Str(t)) => t,
        _ => {
            return Err(Error::MalformedMessage);
        },
    };
    let typed_data: InitData = if chars_eq_str(tchars, "init") {
        let nid = match lookup_flat(bes, "node_id") {
            Some(Scalar::Str(s)) => s,
            _ => {
                return Err(Error::MalformedMessage);
            },
        };
        let nids = match lookup_flat(bes, "node_ids") {
            Some(Scalar::StrArr(a)) => a,
            _ => {
                return Err(Error::MalformedMessage);
            },
        };
        let mut node_ids: Vec<String> = Vec::new();
        let mut i: usize = 0;
        proof {
            assert(node_ids.deep_view() =~~= nids.deep_view().take(0));
        }
        while i < nids.len()
            invariant
                0 <= i <= nids@.len(),
                nids.deep_view().len() == nids@.len(),
                node_ids.deep_view() == nids.deep_view().take(i as int),
            decreases nids@.len() - i,
        {
            let ghost old_dv = node_ids.deep_view();
            node_ids.push(chars_to_string(nids[i].as_slice()));
            proof {
                assert(node_ids.deep_view() =~~= old_dv.push(nids.deep_view()[i as int]));
                assert(nids.deep_view().take(i + 1)
                    =~= nids.deep_view().take(i as int).push(nids.deep_view()[i as int]));
            }
            i = i + 1;
        }
        proof {
            assert(nids.deep_view().take(nids@.len() as int) =~= nids.deep_view());
        }
        InitData::Init { node_id: chars_to_string(nid.as_slice()), node_ids }
    } else if chars_eq_str(tchars, "init_ok") {
        InitData::InitOk
    } else {
        return Err(Error::MalformedMessage);
    };
    let m = Message {
        src: chars_to_string(src_chars.as_slice()),
        dest: chars_to_string(dest_chars.as_slice()),
        body: Payload { msg_id, in_reply_to, typed_data },
    };
    Ok(m)
}

/// Decode one line as an echo envelope.
pub fn decode_echo(line: &[char]) -> (r: Result<Message<EchoData>, Error>)
    ensures
        match r {
            Ok(m) => spec_decode_echo(line@) == Some(m@),
            Err(e) => e == Error::MalformedMessage && spec_decode_echo(line@) is None,
        },
{
    let es = match read_line_obj(line) {
        Some(es) => es,
        None => {
            return Err(Error::MalformedMessage);
        },
    };
    let src_chars = match lookup_top(&es, "src") {
        Some(TopVal::Sc(Scalar::Str(s))) => s,
        _ => {
            return Err(Error::MalformedMessage);
        },
    };
    let dest_chars = match lookup_top(&es, "dest") {
        Some(TopVal::Sc(Scalar::Str(s))) => s,
        _ => {
            return Err(Error::MalformedMessage);
        },
    };
    let bes = match lookup_top(&es, "body") {
        Some(TopVal::Obj(b)) => b,
        _ => {
            return Err(Error::MalformedMessage);
        },
    };
    let msg_id = match read_opt_field(bes, "msg_id") {
        Ok(o) => o,
        Err(e) => {
            return Err(e);
        },
    };
    let in_reply_to = match read_opt_field(bes, "in_reply_to") {
        Ok(o) => o,
        Err(e) => {
            return Err(e);
        },
    };
    let tchars = match lookup_flat(bes, "type") {
        Some(Scalar::Str(t)) => t,
        _ => {
            return Err(Error::MalformedMessage);
        },
    };
    let typed_data: EchoData = if chars_eq_str(tchars, "echo") {
        match lookup_flat(bes, "echo") {
            Some(Scalar::Str(s)) => EchoData::Echo { echo: chars_to_string(s.as_slice()) },
            _ => {
                return Err(Error::MalformedMessage);
            },
        }
    } else if chars_eq_str(tchars, "echo_ok") {
        match lookup_flat(bes, "echo") {
            Some(Scalar::Str(s)) => EchoData::EchoOk { echo: chars_to_string(s.as_slice()) },
            _ => {
                return Err(Error::MalformedMessage);
            },
        }
    } else {
        return Err(Error::MalformedMessage);
    };
    let m = Message {
        src: chars_to_string(src_chars.as_slice()),
        dest: chars_to_string(dest_chars.as_slice()),
        body: Payload { msg_id, in_reply_to, typed_data },
    };
    Ok(m)
}

// ---------------------------------------------------------------------------
// Executable encoding
// ---------------------------------------------------------------------------

/// Append an optional correlation field: a number, or `null`.
fn emit_opt(out: &mut Vec<char>, o: &Option<usize>)
    ensures
        final(out)@ == old(out)@ + print_scalar(opt_scalar(*o)),
{
    match o {
        Some(n) => {
            emit_uint(out, *n);
        },
        None => {
            out.push('n');
            out.push('u');
            out.push('l');
            out.push('l');
            proof {
                reveal_strlit("null");
                assert(out@ =~= old(out)@ + "null"@);
            }
        },
    }
}

proof fn lemma_print_strarr_elems_snoc(a: Seq<Seq<char>>, x: Seq<char>)
    ensures
        print_strarr_elems(a.push(x)) == if a.len() == 0 {
            print_string(x)
        } else {
            print_strarr_elems(a) + seq![','] + print_string(x)
        },
    decreases a.len(),
{
    let ax = a.push(x);
    if a.len() == 0 {
        assert(ax.len() == 1);
        assert(ax[0] == x);
    } else {
        assert(ax.len() >= 2);
        assert(ax[0] == a[0]);
        assert(ax.skip(1) =~= a.skip(1).push(x));
        lemma_print_strarr_elems_snoc(a.skip(1), x);
        if a.len() == 1 {
            assert(a.skip(1).len() == 0);
            assert(print_strarr_elems(ax)
                == print_string(a[0]) + seq![','] + print_string(x));
            assert(print_strarr_elems(a) == print_string(a[0]));
        } else {
            assert(print_strarr_elems(ax)
                == print_string(a[0]) + seq![','] + (print_strarr_elems(a.skip(1)) + seq![','] + print_string(x)));
            assert(print_strarr_elems(a)
                == print_string(a[0]) + seq![','] + print_strarr_elems(a.skip(1)));
            assert(print_string(a[0]) + seq![','] + (print_strarr_elems(a.skip(1)) + seq![','] + print_string(x))
                =~= (print_string(a[0]) + seq![','] + print_strarr_elems(a.skip(1))) + seq![','] + print_string(x));
        }
    }
}

/// Append a printed string array.
fn emit_strarr(out: &mut Vec<char>, a: &Vec<String>)
    ensures
        final(out)@ == old(out)@ + print_strarr(a.deep_view()),
{
    let ghost adv = a.deep_view();
    out.push('[');
    let mut i: usize = 0;
    proof {
        assert(adv.take(0) =~= Seq::<Seq<char>>::empty());
        assert(out@ =~= old(out)@ + seq!['['] + print_strarr_elems(adv.take(0)));
    }
    while i < a.len()
        invariant
            0 <= i <= a@.len(),
            adv == a.deep_view(),
            adv.len() == a@.len(),
            out@ == old(out)@ + seq!['['] + print_strarr_elems(adv.take(i as int)),
        decreases a@.len() - i,
    {
        if i > 0 {
            out.push(',');
        }
        emit_string(out, a[i].as_str());
        proof {
            assert(adv[i as int] == a@[i as int]@);
            assert(adv.take(i + 1) =~= adv.take(i as int).push(adv[i as int]));
            lemma_print_strarr_elems_snoc(adv.take(i as int), adv[i as int]);
            assert(out@ =~= old(out)@ + seq!['['] + print_strarr_elems(adv.take(i + 1)));
        }
        i = i + 1;
    }
    out.push(']');
    proof {
        assert(adv.take(a@.len() as int) =~= adv);
        assert(out@ =~= old(out)@ + print_strarr(adv));
    }
}

/// Append the printed body object of a handshake payload.
#[verifier::rlimit(100)]
#[verifier::spinoff_prover]
fn emit_init_body(out: &mut Vec<char>, p: &Payload<InitData>)
    ensures
        final(out)@ == old(out)@ + print_flatobj(init_body_entries(p@)),
{
    let ghost bes = init_body_entries(p@);
    out.push('{');
    emit_string(out, "type");
    out.push(':');
    match &p.typed_data {
        InitData::Init { node_id, node_ids } => {
            emit_string(out, "init");
            out.push(',');
            emit_string(out, "msg_id");
            out.push(':');
            emit_opt(out, &p.msg_id);
            out.push(',');
            emit_string(out, "in_reply_to");
            out.push(':');
            emit_opt(out, &p.in_reply_to);
            out.push(',');
            emit_string(out, "node_id");
            out.push(':');
            emit_string(out, node_id.as_str());
            out.push(',');
            emit_string(out, "node_ids");
            out.push(':');
            emit_strarr(out, node_ids);
            out.push('}');
            proof {
                reveal_with_fuel(print_flat_entries, 6);
                assert(bes.skip(1).len() == 4 && bes.skip(1)[0] == bes[1] && bes.skip(1)[1] == bes[2]
                    && bes.skip(1)[2] == bes[3] && bes.skip(1)[3] == bes[4]);
                assert(bes.skip(1).skip(1) =~= bes.skip(2));
                assert(bes.skip(2).len() == 3 && bes.skip(2)[0] == bes[2] && bes.skip(2)[1] == bes[3]
                    && bes.skip(2)[2] == bes[4]);
                assert(bes.skip(2).skip(1) =~= bes.skip(3));
                assert(bes.skip(3).len() == 2 && bes.skip(3)[0] == bes[3] && bes.skip(3)[1] == bes[4]);
                assert(bes.skip(3).skip(1) =~= bes.skip(4));
                assert(bes.skip(4).len() == 1 && bes.skip(4)[0] == bes[4]);
                let tail2 = print_string(bes[4].0) + seq![':'] + print_scalar(bes[4].1);
                assert(print_flat_entries(bes.skip(4)) == tail2);
                let tail3 = print_string(bes[3].0) + seq![':'] + print_scalar(bes[3].1) + seq![','] + tail2;
                assert(print_flat_entries(bes.skip(3)) == tail3);
                let tail4 = print_string(bes[2].0) + seq![':'] + print_scalar(bes[2].1) + seq![','] + tail3;
                assert(print_flat_entries(bes.skip(2)) == tail4);
                let tail5 = print_string(bes[1].0) + seq![':'] + print_scalar(bes[1].1) + seq![','] + tail4;
                assert(print_flat_entries(bes.skip(1)) == tail5);
                let whole = print_string(bes[0].0) + seq![':'] + print_scalar(bes[0].1) + seq![','] + tail5;
                assert(print_flat_entries(bes) == whole);
                assert(out@ =~= old(out)@ + seq!['{'] + whole + seq!['}']);
                assert(old(out)@ + seq!['{'] + whole + seq!['}'] =~= old(out)@ + print_flatobj(bes));
            }
        },
        InitData::InitOk => {
            emit_string(out, "init_ok");
            out.push(',');
            emit_string(out, "msg_id");
            out.push(':');
            emit_opt(out, &p.msg_id);
            out.push(',');
            emit_string(out, "in_reply_to");
            out.push(':');
            emit_opt(out, &p.in_reply_to);
            out.push('}');
            proof {
                reveal_with_fuel(print_flat_entries, 4);
                assert(bes.skip(1).len() == 2 && bes.skip(1)[0] == bes[1] && bes.skip(1)[1] == bes[2]);
                assert(bes.skip(1).skip(1) =~= bes.skip(2));
                assert(bes.skip(2).len() == 1 && bes.skip(2)[0] == bes[2]);
                assert(out@ =~= old(out)@ + print_flatobj(bes));
            }
        },
    }
}

/// Append the printed body object of an echo payload.
#[verifier::rlimit(100)]
#[verifier::spinoff_prover]
fn emit_echo_body(out: &mut Vec<char>, p: &Payload<EchoData>)
    ensures
        final(out)@ == old(out)@ + print_flatobj(echo_body_entries(p@)),
{
    let ghost bes = echo_body_entries(p@);
    out.push('{');
    emit_string(out, "type");
    out.push(':');
    match &p.typed_data {
        EchoData::Echo { echo } => {
            emit_string(out, "echo");
            out.push(',');
            emit_string(out, "msg_id");
            out.push(':');
            emit_opt(out, &p.msg_id);
            out.push(',');
            emit_string(out, "in_reply_to");
            out.push(':');
            emit_opt(out, &p.in_reply_to);
            out.push(',');
            emit_string(out, "echo");
            out.push(':');
            emit_string(out, echo.as_str());
            out.push('}');
            proof {
                reveal_with_fuel(print_flat_entries, 5);
                assert(bes.skip(1).len() == 3 && bes.skip(1)[0] == bes[1] && bes.skip(1)[1] == bes[2]
                    && bes.skip(1)[2] == bes[3]);
                assert(bes.skip(1).skip(1) =~= bes.skip(2));
                assert(bes.skip(2).len() == 2 && bes.skip(2)[0] == bes[2] && bes.skip(2)[1] == bes[3]);
                assert(bes.skip(2).skip(1) =~= bes.skip(3));
                assert(bes.skip(3).len() == 1 && bes.skip(3)[0] == bes[3]);
                assert(out@ =~= old(out)@ + print_flatobj(bes));
            }
        },
        EchoData::EchoOk { echo } => {
            emit_string(out, "echo_ok");
            out.push(',');
            emit_string(out, "msg_id");
            out.push(':');
            emit_opt(out, &p.msg_id);
            out.push(',');
            emit_string(out, "in_reply_to");
            out.push(':');
            emit_opt(out, &p.in_reply_to);
            out.push(',');
            emit_string(out, "echo");
            out.push(':');
            emit_string(out, echo.as_str());
            out.push('}');
            proof {
                reveal_with_fuel(print_flat_entries, 5);
                assert(bes.skip(1).len() == 3 && bes.skip(1)[0] == bes[1] && bes.skip(1)[1] == bes[2]
                    && bes.skip(1)[2] == bes[3]);
                assert(bes.skip(1).skip(1) =~= bes.skip(2));
                assert(bes.skip(2).len() == 2 && bes.skip(2)[0] == bes[2] && bes.skip(2)[1] == bes[3]);
                assert(bes.skip(2).skip(1) =~= bes.skip(3));
                assert(bes.skip(3).len() == 1 && bes.skip(3)[0] == bes[3]);
                assert(out@ =~= old(out)@ + print_flatobj(bes));
            }
        },
    }
}

/// Encode a handshake envelope as one line of wire text.
pub fn encode_init(m: &Message<InitData>) -> (out: Vec<char>)
    ensures
        out@ == spec_encode_init(m@),
{
    let ghost es = top_entries_init(m@);
    let mut out: Vec<char> = Vec::new();
    out.push('{');
    emit_string(&mut out, "src");
    out.push(':');
    emit_string(&mut out, m.src.as_str());
    out.push(',');
    emit_string(&mut out, "dest");
    out.push(':');
    emit_string(&mut out, m.dest.as_str());
    out.push(',');
    emit_string(&mut out, "body");
    out.push(':');
    emit_init_body(&mut out, &m.body);
    out.push('}');
    proof {
        reveal_with_fuel(print_top_entries, 4);
        assert(es.skip(1).len() == 2 && es.skip(1)[0] == es[1] && es.skip(1)[1] == es[2]);
        assert(es.skip(1).skip(1) =~= es.skip(2));
        assert(es.skip(2).len() == 1 && es.skip(2)[0] == es[2]);
        assert(out@ =~= print_topobj(es));
    }
    out
}

/// Encode an echo envelope as one line of wire text.
pub fn encode_echo(m: &Message<EchoData>) -> (out: Vec<char>)
    ensures
        out@ == spec_encode_echo(m@),
{
    let ghost es = top_entries_echo(m@);
    let mut out: Vec<char> = Vec::new();
    out.push('{');
    emit_string(&mut out, "src");
    out.push(':');
    emit_string(&mut out, m.src.as_str());
    out.push(',');
    emit_string(&mut out, "dest");
    out.push(':');
    emit_string(&mut out, m.dest.as_str());
    out.push(',');
    emit_string(&mut out, "body");
    out.push(':');
    emit_echo_body(&mut out, &m.body);
    out.push('}');
    proof {
        reveal_with_fuel(print_top_entries, 4);
        assert(es.skip(1).len() == 2 && es.skip(1)[0] == es[1] && es.skip(1)[1] == es[2]);
        assert(es.skip(1).skip(1) =~= es.skip(2));
        assert(es.skip(2).len() == 1 && es.skip(2)[0] == es[2]);
        assert(out@ =~= print_topobj(es));
    }
    out
}

} // verus!

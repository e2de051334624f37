//! Server-to-subscriber frames: the tagged `WsMessage` envelope
//! `{"msg_type": <tag>, "message": <payload>}` rendered as JSON text.
//!
//! The tag is escaped as a JSON string; the payload is JSON text that the
//! caller already rendered and is spliced in unchanged.

use vstd::prelude::*;
use vstd::std_specs::iter::IteratorSpec;

use crate::hub::{BroadcastHub, delivered_to};

verus! {

broadcast use vstd::string::group_string_axioms;

/// Tagged envelope used uniformly for server-to-subscriber frames: the tag
/// and the JSON text of the payload.
pub struct WsMessage {
    pub msg_type: String,
    pub message: String,
}

impl WsMessage {
    /// The frame text this envelope stands for.
    pub fn render(&self) -> (r: String)
        ensures
            r@ == spec_frame(self.msg_type@, self.message@),
    {
        make_frame(self.msg_type.as_str(), self.message.as_str())
    }
}

/// The lower-case hex digit of a value below 16.
pub open spec fn spec_hex_digit(v: int) -> char {
    if v == 0 {
        '0'
    } else if v == 1 {
        '1'
    } else if v == 2 {
        '2'
    } else if v == 3 {
        '3'
    } else if v == 4 {
        '4'
    } else if v == 5 {
        '5'
    } else if v == 6 {
        '6'
    } else if v == 7 {
        '7'
    } else if v == 8 {
        '8'
    } else if v == 9 {
        '9'
    } else if v == 10 {
        'a'
    } else if v == 11 {
        'b'
    } else if v == 12 {
        'c'
    } else if v == 13 {
        'd'
    } else if v == 14 {
        'e'
    } else {
        'f'
    }
}

/// How one character appears inside a JSON string: quote and backslash get a
/// backslash escape, control characters a `\u00..` escape, everything else
/// stands as itself.
pub open spec fn spec_escape_char(c: char) -> Seq<char> {
    if c == '"' {
        seq!['\\', '"']
    } else if c == '\\' {
        seq!['\\', '\\']
    } else if (c as u32) < 32 {
        seq![
            '\\',
            'u',
            '0',
            '0',
            spec_hex_digit((c as u32) as int / 16),
            spec_hex_digit((c as u32) as int % 16),
        ]
    } else {
        seq![c]
    }
}

/// A character sequence escaped for the inside of a JSON string.
pub open spec fn spec_escape(s: Seq<char>) -> Seq<char>
    decreases s.len(),
{
    if s.len() == 0 {
        Seq::empty()
    } else {
        spec_escape_char(s[0]) + spec_escape(s.drop_first())
    }
}

/// The full frame text for a tag and an already-rendered payload.
pub open spec fn spec_frame(msg_type: Seq<char>, payload: Seq<char>) -> Seq<char> {
    seq!['{', '"', 'm', 's', 'g', '_', 't', 'y', 'p', 'e', '"', ':', '"'] + spec_escape(msg_type)
        + seq!['"', ',', '"', 'm', 'e', 's', 's', 'a', 'g', 'e', '"', ':'] + payload + seq!['}']
}

/// The characters of a string, in order, as a vector.
fn str_to_chars(s: &str) -> (r: Vec<char>)
    ensures
        r@ == s@,
{
    let mut it = s.chars();
    let mut out: Vec<char> = Vec::new();
    proof {
        assert(out@ + it.remaining() =~= it.remaining());
    }
    loop
        invariant_except_break
            out@ + it.remaining() == s@,
            it.decrease() is Some,
        ensures
            out@ == s@,
        decreases it.decrease()->0,
    {
        let ghost pre_out = out@;
        let ghost pre_rem = it.remaining();
        match it.next() {
            Some(c) => {
                out.push(c);
                proof {
                    assert(pre_out.push(c) + pre_rem.drop_first() =~= pre_out + pre_rem);
                }
            },
            None => {
                proof {
                    assert(out@ + it.remaining() =~= out@);
                }
                break ;
            },
        }
    }
    out
}

/// Relies on `String`'s `FromIterator<char>`: collecting characters builds
/// the string of exactly those characters, in order.
#[verifier::external_body]
fn chars_to_string(v: &Vec<char>) -> (r: String)
    ensures
        r@ == v@,
{
    v.iter().collect()
}

fn hex_digit(v: u32) -> (r: char)
    requires
        v < 16,
    ensures
        r == spec_hex_digit(v as int),
{
    if v == 0 {
        '0'
    } else if v == 1 {
        '1'
    } else if v == 2 {
        '2'
    } else if v == 3 {
        '3'
    } else if v == 4 {
        '4'
    } else if v == 5 {
        '5'
    } else if v == 6 {
        '6'
    } else if v == 7 {
        '7'
    } else if v == 8 {
        '8'
    } else if v == 9 {
        '9'
    } else if v == 10 {
        'a'
    } else if v == 11 {
        'b'
    } else if v == 12 {
        'c'
    } else if v == 13 {
        'd'
    } else if v == 14 {
        'e'
    } else {
        'f'
    }
}

fn escape_chars(input: &Vec<char>) -> (r: Vec<char>)
    ensures
        r@ == spec_escape(input@),
{
    let ghost full = input@;
    let mut out: Vec<char> = Vec::new();
    let n = input.len();
    let mut k: usize = 0;
    proof {
        assert(full.skip(0) =~= full);
        assert(out@ + spec_escape(full.skip(0)) =~= spec_escape(full));
    }
    while k < n
        invariant
            n == input@.len(),
            full == input@,
            k <= n,
            spec_escape(full) == out@ + spec_escape(full.skip(k as int)),
        decreases n - k,
    {
        proof {
            assert(full.skip(k as int).drop_first() =~= full.skip(k + 1));
            assert(full.skip(k as int)[0] == full[k as int]);
        }
        let ghost pre = out@;
        let c = input[k];
        if c == '"' {
            out.push('\\');
            out.push('"');
        } else if c == '\\' {
            out.push('\\');
            out.push('\\');
        } else if (c as u32) < 32 {
            let code = c as u32;
            out.push('\\');
            out.push('u');
            out.push('0');
            out.push('0');
            out.push(hex_digit(code / 16));
            out.push(hex_digit(code % 16));
        } else {
            out.push(c);
        }
        proof {
            assert(out@ =~= pre + spec_escape_char(full[k as int]));
            assert(pre + spec_escape_char(full[k as int]) + spec_escape(full.skip(k + 1)) =~= pre
                + (spec_escape_char(full[k as int]) + spec_escape(full.skip(k + 1))));
        }
        k = k + 1;
    }
    proof {
        assert(full.skip(n as int) =~= Seq::<char>::empty());
        assert(out@ + Seq::<char>::empty() =~= out@);
    }
    out
}

/// Render the frame for a tag and an already-rendered JSON payload.
pub fn make_frame(msg_type: &str, payload: &str) -> (r: String)
    ensures
        r@ == spec_frame(msg_type@, payload@),
{
    let mut out: Vec<char> = Vec::new();
    out.push('{');
    out.push('"');
    out.push('m');
    out.push('s');
    out.push('g');
    out.push('_');
    out.push('t');
    out.push('y');
    out.push('p');
    out.push('e');
    out.push('"');
    out.push(':');
    out.push('"');
    let tag_chars = str_to_chars(msg_type);
    let mut tag = escape_chars(&tag_chars);
    out.append(&mut tag);
    out.push('"');
    out.push(',');
    out.push('"');
    out.push('m');
    out.push('e');
    out.push('s');
    out.push('s');
    out.push('a');
    out.push('g');
    out.push('e');
    out.push('"');
    out.push(':');
    let mut pl = str_to_chars(payload);
    out.append(&mut pl);
    out.push('}');
    proof {
        assert(out@ =~= spec_frame(msg_type@, payload@));
    }
    chars_to_string(&out)
}

/// Serialize one event as a frame and fan it out to every registered
/// subscriber.
pub fn broadcast_message(hub: &mut BroadcastHub, msg_type: &str, payload: &str)
    requires
        old(hub).wf(),
    ensures
        final(hub).wf(),
        final(hub).next_id == old(hub).next_id,
        final(hub).lag_bound == old(hub).lag_bound,
        final(hub).conns@.len() == old(hub).conns@.len(),
        forall|i: int|
            0 <= i < old(hub).conns@.len() ==> delivered_to(
                old(hub).conns@[i],
                #[trigger] final(hub).conns@[i],
                spec_frame(msg_type@, payload@),
                old(hub).lag_bound as nat,
            ),
{
    let frame = make_frame(msg_type, payload);
    hub.publish(&frame);
}

} // verus!

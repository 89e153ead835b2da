//! The query string of an announce to the tracker.
use crate::tracker::{Event, TrackerRequest};
use vstd::prelude::*;
use vstd::string::StringExecFns;

verus! {

/// The bytes that percent-encoding keeps as they are: ASCII letters and digits, `-`,
/// `.`, `_` and `~`.
pub open spec fn unreserved(b: u8) -> bool {
    (48 <= b <= 57) || (65 <= b <= 90) || (97 <= b <= 122) || b == 45 || b == 46 || b == 95 || b
        == 126
}

/// The upper-case hexadecimal digit of `d`, below 16.
pub open spec fn hex_digit(d: u8) -> char {
    if d < 10 {
        ((48 + d) as u8) as char
    } else {
        ((55 + d) as u8) as char
    }
}

/// A byte, percent-encoded.
pub open spec fn percent_encode_byte(b: u8) -> Seq<char> {
    if unreserved(b) {
        seq![b as char]
    } else {
        seq!['%', hex_digit(b >> 4u8), hex_digit(b & 15u8)]
    }
}

/// Bytes, percent-encoded one after the other.
pub open spec fn percent_encoded(bytes: Seq<u8>) -> Seq<char>
    decreases bytes.len(),
{
    if bytes.len() == 0 {
        Seq::empty()
    } else {
        percent_encoded(bytes.drop_last()) + percent_encode_byte(bytes.last())
    }
}

/// The decimal digit of `d`, below 10.
pub open spec fn digit_char(d: nat) -> char {
    ((48 + d) as u8) as char
}

/// The decimal notation of `n`, without leading zeros.
pub open spec fn decimal(n: nat) -> Seq<char>
    decreases n,
{
    if n < 10 {
        seq![digit_char(n)]
    } else {
        decimal(n / 10) + seq![digit_char(n % 10)]
    }
}

/// Relies on `urlencoding::encode_binary`: every byte but ASCII letters, digits, `-`,
/// `.`, `_` and `~` becomes `%` and two upper-case hexadecimal digits.
#[verifier::external_body]
fn url_encode(data: &[u8]) -> (r: String)
    ensures
        r@ == percent_encoded(data@),
{
    urlencoding::encode_binary(data).into_owned()
}

fn digit_str(d: u64) -> (r: &'static str)
    requires
        d < 10,
    ensures
        r@ == seq![digit_char(d as nat)],
{
    proof {
        reveal_strlit("0");
        reveal_strlit("1");
        reveal_strlit("2");
        reveal_strlit("3");
        reveal_strlit("4");
        reveal_strlit("5");
        reveal_strlit("6");
        reveal_strlit("7");
        reveal_strlit("8");
        reveal_strlit("9");
    }
    if d == 0 {
        "0"
    } else if d == 1 {
        "1"
    } else if d == 2 {
        "2"
    } else if d == 3 {
        "3"
    } else if d == 4 {
        "4"
    } else if d == 5 {
        "5"
    } else if d == 6 {
        "6"
    } else if d == 7 {
        "7"
    } else if d == 8 {
        "8"
    } else {
        "9"
    }
}

/// Appends the decimal notation of `n`.
pub(crate) fn push_decimal(s: &mut String, n: u64)
    ensures
        final(s)@ == old(s)@ + decimal(n as nat),
    decreases n,
{
    if n >= 10 {
        push_decimal(s, n / 10);
    }
    s.append(digit_str(n % 10));
    assert(final(s)@ =~= old(s)@ + decimal(n as nat));
}

/// The name of an event in an announce.
pub open spec fn event_name(e: Event) -> Seq<char> {
    match e {
        Event::Started => "started"@,
        Event::Stopped => "stopped"@,
        Event::Completed => "completed"@,
    }
}

/// The query of an announce: the two identifiers percent-encoded, the numbers in
/// decimal, `compact` as 1 or 0, and the event where there is one.
pub open spec fn announce_query(r: TrackerRequest) -> Seq<char> {
    "info_hash="@ + percent_encoded(r.info_hash@) + "&peer_id="@ + percent_encoded(r.peer_id@)
        + "&port="@ + decimal(r.port as nat) + "&uploaded="@ + decimal(r.uploaded as nat)
        + "&downloaded="@ + decimal(r.downloaded as nat) + "&left="@ + decimal(r.left as nat)
        + "&compact="@ + (if r.compact {
        "1"@
    } else {
        "0"@
    }) + match r.event {
        Some(e) => "&event="@ + event_name(e),
        None => Seq::empty(),
    }
}

impl TrackerRequest {
    /// The query string of the announce URL.
    pub fn query_string(&self) -> (r: String)
        ensures
            r@ == announce_query(*self),
    {
        let mut s = String::from_str("info_hash=");
        s.append(url_encode(self.info_hash.as_slice()).as_str());
        s.append("&peer_id=");
        s.append(url_encode(self.peer_id.as_slice()).as_str());
        s.append("&port=");
        push_decimal(&mut s, self.port as u64);
        s.append("&uploaded=");
        push_decimal(&mut s, self.uploaded as u64);
        s.append("&downloaded=");
        push_decimal(&mut s, self.downloaded as u64);
        s.append("&left=");
        push_decimal(&mut s, self.left as u64);
        s.append("&compact=");
        s.append(if self.compact { "1" } else { "0" });
        match self.event {
            Some(e) => {
                s.append("&event=");
                let name = e.as_str();
                assert(name@ == event_name(e));
                s.append(name);
            },
            None => {},
        }
        assert(s@ =~= announce_query(*self));
        s
    }
}

} // verus!

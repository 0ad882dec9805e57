//! Application configuration: the environment variables it is read from,
//! the `DVR_CHANNELS` list, and the RTSP URL of a channel.

use vstd::prelude::*;
use vstd::utf8::{
    char_is_scalar, char_u32_cast, decode_utf8, encode_scalar, encode_utf8, encode_utf8_decode_utf8,
    has_width_2_encoding, has_width_3_encoding, is_scalar,
};
use crate::models::copy_opt_string;
use crate::order::{insert_sorted, lemma_sorted_set_unique, strictly_increasing};
use crate::outside::push_char;
use crate::text::{
    trimmed_pieces,
    chars_of, decimal, lemma_parse_decimal, lemma_split_step, owned, parse_unsigned,
    parse_unsigned_range, push_decimal,
    push_text, split, string_from_range, trim, trim_bounds,
};

verus! {

broadcast use vstd::string::group_string_axioms;

// ─── Percent-encoding of the RTSP user information ──────────────────────────

/// A byte that RFC 3986 leaves unreserved: ASCII letters and digits and
/// `-`, `.`, `_`, `~`.
pub open spec fn is_unreserved(b: u8) -> bool {
    ||| 48 <= b <= 57
    ||| 65 <= b <= 90
    ||| 97 <= b <= 122
    ||| b == 45
    ||| b == 46
    ||| b == 95
    ||| b == 126
}

/// The upper-case hexadecimal digit for `d` (below sixteen).
pub open spec fn hex_digit(d: nat) -> char {
    if d < 10 {
        (48 + d) as char
    } else {
        (55 + d) as char
    }
}

/// One byte as it stands in the encoded text: itself when unreserved,
/// otherwise `%` and two upper-case hexadecimal digits.
pub open spec fn encode_byte(b: u8) -> Seq<char> {
    if is_unreserved(b) {
        seq![b as char]
    } else {
        seq!['%', hex_digit((b / 16) as nat), hex_digit((b % 16) as nat)]
    }
}

/// The percent-encoding of a byte sequence.
pub open spec fn encode_bytes(bs: Seq<u8>) -> Seq<char>
    decreases bs.len(),
{
    if bs.len() == 0 {
        Seq::empty()
    } else {
        encode_bytes(bs.drop_last()) + encode_byte(bs.last())
    }
}

/// The percent-encoding of the UTF-8 bytes of `s`.
pub open spec fn encode_userinfo(s: Seq<char>) -> Seq<char> {
    encode_bytes(encode_utf8(s))
}

/// A character that can stand in percent-encoded text: an unreserved ASCII
/// character or `%`.
pub open spec fn is_encoded_char(c: char) -> bool {
    ||| 48 <= (c as u32) <= 57
    ||| 65 <= (c as u32) <= 90
    ||| 97 <= (c as u32) <= 122
    ||| c == '-'
    ||| c == '.'
    ||| c == '_'
    ||| c == '~'
    ||| c == '%'
}

/// Percent-encoded text holds only unreserved ASCII characters and `%`;
/// in particular no `:` and no `@`.
pub proof fn lemma_encoded_chars(bs: Seq<u8>)
    ensures
        forall|i: int| 0 <= i < encode_bytes(bs).len() ==> is_encoded_char(#[trigger] encode_bytes(bs)[i]),
    decreases bs.len(),
{
    if bs.len() > 0 {
        lemma_encoded_chars(bs.drop_last());
        let r = encode_bytes(bs.drop_last());
        let e = encode_byte(bs.last());
        let b = bs.last();
        assert(b / 16 < 16);
        assert forall|i: int| 0 <= i < encode_bytes(bs).len() implies is_encoded_char(#[trigger] encode_bytes(bs)[i]) by {
            if i >= r.len() {
                assert(encode_bytes(bs)[i] == e[i - r.len()]);
            } else {
                assert(encode_bytes(bs)[i] == r[i]);
            }
        }
    }
}

/// The value of an upper-case hexadecimal digit.
pub open spec fn hex_value(c: char) -> Option<nat> {
    if '0' <= c <= '9' {
        Some((c as u32 - 48) as nat)
    } else if 'A' <= c <= 'F' {
        Some((c as u32 - 55) as nat)
    } else {
        None
    }
}

/// An unreserved ASCII character.
pub open spec fn is_unreserved_char(c: char) -> bool {
    (c as u32) < 128 && is_unreserved((c as u32) as u8)
}

/// The bytes that percent-encoded text stands for: each unreserved
/// character is its own byte and each `%` with two upper-case hexadecimal
/// digits is the byte they write; `None` for any other text.
pub open spec fn percent_decode(s: Seq<char>) -> Option<Seq<u8>>
    decreases s.len(),
{
    if s.len() == 0 {
        Some(Seq::empty())
    } else if s[0] == '%' {
        if s.len() >= 3 && hex_value(s[1]) is Some && hex_value(s[2]) is Some {
            match percent_decode(s.skip(3)) {
                Some(r) => Some(
                    seq![(16 * hex_value(s[1])->0 + hex_value(s[2])->0) as u8] + r,
                ),
                None => None,
            }
        } else {
            None
        }
    } else if is_unreserved_char(s[0]) {
        match percent_decode(s.skip(1)) {
            Some(r) => Some(seq![(s[0] as u32) as u8] + r),
            None => None,
        }
    } else {
        None
    }
}

proof fn lemma_hex_digit_value(d: nat)
    requires
        d < 16,
    ensures
        hex_value(hex_digit(d)) == Some(d),
{
}

proof fn lemma_decode_encoded_byte(b: u8, t: Seq<char>, r: Seq<u8>)
    requires
        percent_decode(t) == Some(r),
    ensures
        percent_decode(encode_byte(b) + t) == Some(seq![b] + r),
{
    let x = encode_byte(b) + t;
    if is_unreserved(b) {
        assert(x[0] == b as char);
        assert(((b as char) as u32) == b);
        assert(x.skip(1) =~= t);
    } else {
        let hi = (b / 16) as nat;
        let lo = (b % 16) as nat;
        lemma_hex_digit_value(hi);
        lemma_hex_digit_value(lo);
        assert(x[0] == '%');
        assert(x[1] == hex_digit(hi));
        assert(x[2] == hex_digit(lo));
        assert(x.skip(3) =~= t);
        assert((16 * hi + lo) as u8 == b);
    }
}

proof fn lemma_decode_encoded(bs: Seq<u8>, t: Seq<char>, r: Seq<u8>)
    requires
        percent_decode(t) == Some(r),
    ensures
        percent_decode(encode_bytes(bs) + t) == Some(bs + r),
    decreases bs.len(),
{
    if bs.len() == 0 {
        assert(encode_bytes(bs) + t =~= t);
        assert(bs + r =~= r);
    } else {
        let d = bs.drop_last();
        let b = bs.last();
        lemma_decode_encoded_byte(b, t, r);
        lemma_decode_encoded(d, encode_byte(b) + t, seq![b] + r);
        assert(encode_bytes(bs) + t =~= encode_bytes(d) + (encode_byte(b) + t));
        assert(d + (seq![b] + r) =~= bs + r);
    }
}

/// Decoding the percent-encoding of a text gives back its UTF-8 bytes, and
/// those read back as the text.
pub proof fn lemma_userinfo_round_trip(value: Seq<char>)
    ensures
        percent_decode(encode_userinfo(value)) == Some(encode_utf8(value)),
        decode_utf8(encode_utf8(value)) == value,
{
    let bs = encode_utf8(value);
    assert(percent_decode(Seq::<char>::empty()) == Some(Seq::<u8>::empty()));
    lemma_decode_encoded(bs, Seq::empty(), Seq::empty());
    assert(encode_bytes(bs) + Seq::<char>::empty() =~= encode_bytes(bs));
    assert(bs + Seq::<u8>::empty() =~= bs);
    encode_utf8_decode_utf8(value);
}

proof fn lemma_encode_bytes_append(a: Seq<u8>, b: Seq<u8>)
    ensures
        encode_bytes(a + b) == encode_bytes(a) + encode_bytes(b),
    decreases b.len(),
{
    if b.len() == 0 {
        assert(a + b =~= a);
        assert(encode_bytes(a) + encode_bytes(b) =~= encode_bytes(a));
    } else {
        lemma_encode_bytes_append(a, b.drop_last());
        assert((a + b).drop_last() =~= a + b.drop_last());
        assert(encode_bytes(a + b) =~= encode_bytes(a) + encode_bytes(b));
    }
}

proof fn lemma_encode_bytes_len(bs: Seq<u8>)
    ensures
        encode_bytes(bs).len() >= bs.len(),
        (exists|i: int| 0 <= i < bs.len() && !is_unreserved(#[trigger] bs[i]))
            ==> encode_bytes(bs).len() >= bs.len() + 2,
    decreases bs.len(),
{
    if bs.len() > 0 {
        let d = bs.drop_last();
        lemma_encode_bytes_len(d);
        if exists|i: int| 0 <= i < bs.len() && !is_unreserved(#[trigger] bs[i]) {
            let i = choose|i: int| 0 <= i < bs.len() && !is_unreserved(#[trigger] bs[i]);
            if i < d.len() {
                assert(d[i] == bs[i]);
            }
        }
    }
}

proof fn lemma_utf8_len(cs: Seq<char>)
    ensures
        encode_utf8(cs).len() >= cs.len(),
    decreases cs.len(),
{
    if cs.len() > 0 {
        lemma_utf8_len(cs.drop_first());
    }
}

proof fn lemma_leading_byte_reserved(v: u32)
    requires
        v >= 0x80,
        is_scalar(v),
    ensures
        !is_unreserved(encode_scalar(v)[0]),
{
    if has_width_2_encoding(v) {
        assert(0xC0u8 | ((v >> 6u32) & 0x1Fu32) as u8 >= 0xC0) by (bit_vector);
    } else if has_width_3_encoding(v) {
        assert(0xE0u8 | ((v >> 12u32) & 0x0Fu32) as u8 >= 0xE0) by (bit_vector);
    } else {
        assert(0xF0u8 | ((v >> 18u32) & 0x7u32) as u8 >= 0xF0) by (bit_vector);
    }
}

proof fn lemma_unreserved_text_unchanged(cs: Seq<char>)
    requires
        forall|i: int| 0 <= i < encode_utf8(cs).len() ==> is_unreserved(#[trigger] encode_utf8(cs)[i]),
    ensures
        encode_userinfo(cs) == cs,
    decreases cs.len(),
{
    if cs.len() == 0 {
        assert(encode_bytes(Seq::<u8>::empty()) =~= Seq::<char>::empty());
    } else {
        let c = cs[0];
        let v = c as u32;
        let rest = cs.drop_first();
        char_is_scalar(c);
        let first = encode_scalar(v);
        assert(encode_utf8(cs) == first + encode_utf8(rest));
        assert(encode_utf8(cs)[0] == first[0]);
        if v >= 0x80 {
            lemma_leading_byte_reserved(v);
        }
        assert(v < 0x80);
        assert(v & 0x7Fu32 == v) by (bit_vector)
            requires
                v < 0x80u32,
        ;
        assert(first =~= seq![v as u8]);
        assert forall|i: int| 0 <= i < encode_utf8(rest).len() implies is_unreserved(
            #[trigger] encode_utf8(rest)[i],
        ) by {
            assert(encode_utf8(cs)[i + 1] == encode_utf8(rest)[i]);
        }
        lemma_unreserved_text_unchanged(rest);
        lemma_encode_bytes_append(first, encode_utf8(rest));
        assert(first.drop_last() =~= Seq::<u8>::empty());
        assert(encode_bytes(first) =~= encode_bytes(Seq::<u8>::empty()) + encode_byte(v as u8));
        assert(encode_bytes(Seq::<u8>::empty()) =~= Seq::<char>::empty());
        char_u32_cast(c, v);
        assert(((v as u8) as char) == c);
        assert(encode_userinfo(cs) =~= seq![c] + rest);
        assert(seq![c] + rest =~= cs);
    }
}

/// Encoding leaves a text as it is exactly when each of its UTF-8 bytes is
/// unreserved.
pub proof fn lemma_userinfo_unchanged(value: Seq<char>)
    ensures
        encode_userinfo(value) == value <==> forall|i: int|
            0 <= i < encode_utf8(value).len() ==> is_unreserved(#[trigger] encode_utf8(value)[i]),
{
    let bs = encode_utf8(value);
    if forall|i: int| 0 <= i < bs.len() ==> is_unreserved(#[trigger] bs[i]) {
        lemma_unreserved_text_unchanged(value);
    } else {
        lemma_encode_bytes_len(bs);
        lemma_utf8_len(value);
        let i = choose|i: int| 0 <= i < bs.len() && !is_unreserved(#[trigger] bs[i]);
        assert(encode_userinfo(value).len() > value.len());
    }
}

/// Percent-encodes `value` for the user-information part of an RTSP URL:
/// each UTF-8 byte that is not unreserved becomes `%XX`.
pub fn encode_rtsp_userinfo(value: &str) -> (r: String)
    ensures
        r@ == encode_userinfo(value@),
{
    let bytes = value.as_bytes();
    let ghost bs = bytes@;
    assert(bs == encode_utf8(value@));
    let mut encoded = String::new();
    let mut i: usize = 0;
    while i < bytes.len()
        invariant
            bytes@ == bs,
            i <= bs.len(),
            encoded@ == encode_bytes(bs.take(i as int)),
        decreases bs.len() - i,
    {
        let byte = bytes[i];
        let is_unreserved = (48 <= byte && byte <= 57) || (65 <= byte && byte <= 90) || (97 <= byte
            && byte <= 122) || byte == 45 || byte == 46 || byte == 95 || byte == 126;
        let ghost before = encoded@;
        if is_unreserved {
            push_char(&mut encoded, byte as char);
        } else {
            let hi = byte / 16;
            let lo = byte % 16;
            push_char(&mut encoded, '%');
            push_char(&mut encoded, hex_char(hi));
            push_char(&mut encoded, hex_char(lo));
        }
        proof {
            let t = bs.take(i + 1);
            assert(t.drop_last() == bs.take(i as int));
            assert(t.last() == byte);
            assert(encoded@ =~= before + encode_byte(byte));
        }
        i = i + 1;
    }
    assert(bs.take(bs.len() as int) == bs);
    encoded
}

/// The upper-case hexadecimal digit for `d`.
fn hex_char(d: u8) -> (c: char)
    requires
        d < 16,
    ensures
        c == hex_digit(d as nat),
{
    if d < 10 {
        (48 + d) as char
    } else {
        (55 + d) as char
    }
}


// ─── Errors ─────────────────────────────────────────────────────────────────

/// The environment variables whose absence or bad value stops start-up.
#[derive(Debug, Clone, Copy, PartialEq, Eq, Structural)]
pub enum EnvVar {
    DvrHost,
    DvrPort,
    DvrRtspPort,
    DvrUsername,
    DvrPassword,
    ServerPort,
}

impl EnvVar {
    /// The variable's name in the environment.
    pub open spec fn spec_name(self) -> Seq<char> {
        match self {
            EnvVar::DvrHost => "DVR_HOST"@,
            EnvVar::DvrPort => "DVR_PORT"@,
            EnvVar::DvrRtspPort => "DVR_RTSP_PORT"@,
            EnvVar::DvrUsername => "DVR_USERNAME"@,
            EnvVar::DvrPassword => "DVR_PASSWORD"@,
            EnvVar::ServerPort => "SERVER_PORT"@,
        }
    }

    /// The variable's name in the environment.
    pub fn name(&self) -> (r: String)
        ensures
            r@ == self.spec_name(),
    {
        match self {
            EnvVar::DvrHost => owned("DVR_HOST"),
            EnvVar::DvrPort => owned("DVR_PORT"),
            EnvVar::DvrRtspPort => owned("DVR_RTSP_PORT"),
            EnvVar::DvrUsername => owned("DVR_USERNAME"),
            EnvVar::DvrPassword => owned("DVR_PASSWORD"),
            EnvVar::ServerPort => owned("SERVER_PORT"),
        }
    }
}

/// Why the configuration could not be built.
#[derive(Debug)]
pub enum ConfigError {
    /// A required variable is not set.
    Missing(EnvVar),
    /// A port variable is not a number from 0 to 65535.
    InvalidPort(EnvVar),
    /// An entry of `DVR_CHANNELS` (trimmed) is not a `u32`.
    InvalidChannel(String),
}

impl ConfigError {
    /// The text that explains the error.
    pub open spec fn spec_message(self) -> Seq<char> {
        match self {
            ConfigError::Missing(v) => v.spec_name() + " must be set in .env"@,
            ConfigError::InvalidPort(v) => v.spec_name() + " must be a valid port number"@,
            ConfigError::InvalidChannel(t) => "Invalid DVR_CHANNELS value '"@ + t@
                + "'. Expected comma-separated integers (e.g. 101,201,301)"@,
        }
    }

    /// The text that explains the error.
    pub fn message(&self) -> (r: String)
        ensures
            r@ == self.spec_message(),
    {
        match self {
            ConfigError::Missing(v) => {
                let mut m = v.name();
                push_text(&mut m, " must be set in .env");
                m
            },
            ConfigError::InvalidPort(v) => {
                let mut m = v.name();
                push_text(&mut m, " must be a valid port number");
                m
            },
            ConfigError::InvalidChannel(t) => {
                let mut m = owned("Invalid DVR_CHANNELS value '");
                push_text(&mut m, t.as_str());
                push_text(&mut m, "'. Expected comma-separated integers (e.g. 101,201,301)");
                m
            },
        }
    }
}

// ─── DVR_CHANNELS ───────────────────────────────────────────────────────────

/// The entries of a `DVR_CHANNELS` value: its comma-separated pieces,
/// trimmed, blank ones left out.
pub open spec fn dvr_channel_tokens(raw: Seq<char>) -> Seq<Seq<char>> {
    trimmed_pieces(split(raw, ','))
}

/// The channel number an entry denotes, if it is a valid `u32`.
pub open spec fn token_value(t: Seq<char>) -> Option<nat> {
    parse_unsigned(t, u32::MAX as nat)
}

/// Every entry is a valid `u32`.
pub open spec fn all_tokens_valid(ts: Seq<Seq<char>>) -> bool {
    forall|i: int| 0 <= i < ts.len() ==> (#[trigger] token_value(ts[i])) is Some
}

/// The set of channel numbers the entries denote.
pub open spec fn token_values(ts: Seq<Seq<char>>) -> Set<u32>
    decreases ts.len(),
{
    if ts.len() == 0 {
        Set::empty()
    } else {
        token_values(ts.drop_last()).insert((token_value(ts.last())->0) as u32)
    }
}

/// `t` is the first entry of `ts` that is not a valid `u32`.
pub open spec fn first_invalid_token(ts: Seq<Seq<char>>, t: Seq<char>) -> bool {
    exists|j: int|
        #![trigger ts[j]]
        0 <= j < ts.len() && (forall|i: int| 0 <= i < j ==> (#[trigger] token_value(ts[i])) is Some)
            && token_value(ts[j]) is None && ts[j] == t
}

/// The value `DVR_CHANNELS` fails on: its first invalid entry, if it has one.
pub open spec fn channels_fail(raw: Option<String>) -> bool {
    raw matches Some(s) && !all_tokens_valid(dvr_channel_tokens(s@))
}

/// What reading `DVR_CHANNELS` gives: no value gives no channels; otherwise
/// the distinct channel numbers of its entries in increasing order, or, if an
/// entry is not a `u32`, an error naming the first such entry.
pub open spec fn channels_outcome(raw: Option<String>, r: Result<Vec<u32>, ConfigError>) -> bool {
    match raw {
        None => r matches Ok(v) && v@.len() == 0,
        Some(s) => {
            let ts = dvr_channel_tokens(s@);
            match r {
                Ok(v) => all_tokens_valid(ts) && strictly_increasing(v@) && v@.to_set()
                    == token_values(ts),
                Err(e) => !all_tokens_valid(ts) && (e matches ConfigError::InvalidChannel(t)
                    && first_invalid_token(ts, t@)),
            }
        },
    }
}

/// The channel numbers a `DVR_CHANNELS` value names (none when unset).
pub open spec fn channel_values(raw: Option<String>) -> Set<u32> {
    match raw {
        Some(s) => token_values(dvr_channel_tokens(s@)),
        None => Set::empty(),
    }
}

/// The channel list depends only on which channel numbers `DVR_CHANNELS`
/// names: values naming the same numbers, in any order, with repeats or
/// blank entries, give the same list.
pub proof fn lemma_channel_list_determined(
    a: Option<String>,
    b: Option<String>,
    ra: Vec<u32>,
    rb: Vec<u32>,
)
    requires
        channels_outcome(a, Ok(ra)),
        channels_outcome(b, Ok(rb)),
        channel_values(a) == channel_values(b),
    ensures
        ra@ == rb@,
{
    assert(ra@.to_set() == channel_values(a)) by {
        if a is None {
            assert(ra@.to_set() =~= Set::<u32>::empty());
        }
    }
    assert(rb@.to_set() == channel_values(b)) by {
        if b is None {
            assert(rb@.to_set() =~= Set::<u32>::empty());
        }
    }
    lemma_sorted_set_unique(ra@, rb@);
}

/// Takes in the piece `cs[lo..hi]` of a channel list.
fn absorb_channel_piece(cs: &Vec<char>, lo: usize, hi: usize, out: &mut Vec<u32>) -> (r: Result<
    (),
    ConfigError,
>)
    requires
        lo <= hi <= cs@.len(),
        strictly_increasing(old(out)@),
    ensures
        ({
            let t = trim(cs@.subrange(lo as int, hi as int));
            &&& t.len() == 0 ==> r is Ok && final(out)@ == old(out)@
            &&& t.len() > 0 && token_value(t) is Some ==> r is Ok && strictly_increasing(
                final(out)@,
            ) && final(out)@.to_set() == old(out)@.to_set().insert((token_value(t)->0) as u32)
            &&& t.len() > 0 && token_value(t) is None ==> (r matches Err(
                ConfigError::InvalidChannel(s),
            ) && s@ == t)
        }),
{
    let (a, b) = trim_bounds(cs, lo, hi);
    if a == b {
        return Ok(());
    }
    match parse_unsigned_range(cs, a, b, u32::MAX) {
        Some(v) => {
            insert_sorted(out, v);
            Ok(())
        },
        None => Err(ConfigError::InvalidChannel(string_from_range(cs, a, b))),
    }
}

/// Parses `DVR_CHANNELS`: comma-separated channel numbers, blanks ignored;
/// the result is sorted and without repeats.
pub fn parse_dvr_channels(raw: Option<String>) -> (r: Result<Vec<u32>, ConfigError>)
    ensures
        channels_outcome(raw, r),
{
    let raw_text = match &raw {
        None => {
            return Ok(Vec::new());
        },
        Some(s) => s,
    };
    let cs = chars_of(raw_text.as_str());
    let ghost full = cs@;
    let mut out: Vec<u32> = Vec::new();
    let mut start: usize = 0;
    let mut i: usize = 0;
    let ghost mut done: Seq<Seq<char>> = Seq::empty();
    assert(full.take(0) =~= Seq::<char>::empty());
    assert(full.subrange(0, 0) =~= Seq::<char>::empty());
    assert(split(full.take(0), ',') == done.push(full.subrange(0, 0)));
    while i < cs.len()
        invariant
            cs@ == full,
            full == raw_text@,
            raw == Some(*raw_text),
            start <= i <= full.len(),
            split(full.take(i as int), ',') == done.push(full.subrange(start as int, i as int)),
            all_tokens_valid(trimmed_pieces(done)),
            strictly_increasing(out@),
            out@.to_set() == token_values(trimmed_pieces(done)),
        decreases full.len() - i,
    {
        proof {
            lemma_split_step(full, ',', i as int, start as int, done);
        }
        if cs[i] == ',' {
            let ghost piece = full.subrange(start as int, i as int);
            let ghost old_tokens = trimmed_pieces(done);
            let step = absorb_channel_piece(&cs, start, i, &mut out);
            proof {
                let d2 = done.push(piece);
                assert(d2.drop_last() == done);
                assert(d2.last() == piece);
            }
            if let Err(e) = step {
                proof {
                    let ts = trimmed_pieces(done.push(piece));
                    assert(ts == old_tokens.push(trim(piece)));
                    assert(ts[old_tokens.len() as int] == trim(piece));
                    assert(forall|k: int| 0 <= k < old_tokens.len() ==> ts[k] == old_tokens[k]);
                    assert(split(full.take(i + 1), ',') == done.push(piece).push(
                        full.subrange(i + 1, i + 1),
                    ));
                    crate::text::lemma_split_closed_prefix(full, ',', i + 1);
                    assert(split(full.take(i + 1), ',').drop_last() == done.push(piece));
                    crate::text::lemma_trimmed_pieces_prefix(done.push(piece), split(full, ','));
                    let all = dvr_channel_tokens(full);
                    let j = old_tokens.len() as int;
                    assert(all[j] == ts[j]);
                    assert(token_value(all[j]) is None);
                    assert forall|k: int| 0 <= k < j implies (#[trigger] token_value(all[k])) is Some by {
                        assert(all[k] == ts[k]);
                        assert(token_value(old_tokens[k]) is Some);
                    }
                    assert(first_invalid_token(all, trim(piece)));
                    assert(!all_tokens_valid(all));
                    assert(trim(piece).len() > 0);

                }
                return Err(e);
            }
            proof {
                let ts = trimmed_pieces(done.push(piece));
                if trim(piece).len() > 0 {
                    assert(ts == old_tokens.push(trim(piece)));
                    assert(ts.drop_last() == old_tokens);
                    assert forall|k: int| 0 <= k < ts.len() implies (#[trigger] token_value(ts[k])) is Some by {
                        if k < old_tokens.len() {
                            assert(ts[k] == old_tokens[k]);
                        }
                    }
                }
                done = done.push(piece);
                assert(full.subrange(i + 1, i + 1) =~= Seq::<char>::empty());
            }
            start = i + 1;
        }
        i = i + 1;
    }
    assert(full.take(full.len() as int) == full);
    let ghost piece = full.subrange(start as int, full.len() as int);
    let ghost old_tokens = trimmed_pieces(done);
    let step = absorb_channel_piece(&cs, start, cs.len(), &mut out);
    proof {
        let d2 = done.push(piece);
        assert(d2 == split(full, ','));
        assert(d2.drop_last() == done);
        assert(d2.last() == piece);
        let ts = trimmed_pieces(d2);
        if trim(piece).len() > 0 {
            assert(ts == old_tokens.push(trim(piece)));
            assert(ts.drop_last() == old_tokens);
            assert(ts[old_tokens.len() as int] == trim(piece));
            assert(forall|k: int| 0 <= k < old_tokens.len() ==> ts[k] == old_tokens[k]);
        } else {
            assert(ts == old_tokens);
        }
    }
    match step {
        Ok(()) => Ok(out),
        Err(e) => Err(e),
    }
}


// ─── Application configuration ──────────────────────────────────────────────

/// Application configuration.
#[derive(Debug)]
pub struct AppConfig {
    /// Hikvision DVR host IP address
    pub dvr_host: String,
    /// RTSP host; `DVR_RTSP_HOST` when set, otherwise `DVR_HOST`
    pub dvr_rtsp_host: String,
    /// Hikvision DVR ISAPI port (default: 80)
    pub dvr_port: u16,
    /// Hikvision DVR RTSP port (default: 554)
    pub dvr_rtsp_port: u16,
    /// DVR admin username
    pub dvr_username: String,
    /// DVR admin password
    pub dvr_password: String,
    /// RTSP channels (e.g. 101,201,301), sorted and without repeats
    pub dvr_channels: Vec<u32>,
    /// Server bind host
    pub server_host: String,
    /// Server bind port
    pub server_port: u16,
}

impl Clone for AppConfig {
    fn clone(&self) -> (r: Self)
        ensures
            r.dvr_host == self.dvr_host,
            r.dvr_rtsp_host == self.dvr_rtsp_host,
            r.dvr_port == self.dvr_port,
            r.dvr_rtsp_port == self.dvr_rtsp_port,
            r.dvr_username == self.dvr_username,
            r.dvr_password == self.dvr_password,
            r.dvr_channels@ == self.dvr_channels@,
            r.server_host == self.server_host,
            r.server_port == self.server_port,
    {
        AppConfig {
            dvr_host: self.dvr_host.clone(),
            dvr_rtsp_host: self.dvr_rtsp_host.clone(),
            dvr_port: self.dvr_port,
            dvr_rtsp_port: self.dvr_rtsp_port,
            dvr_username: self.dvr_username.clone(),
            dvr_password: self.dvr_password.clone(),
            dvr_channels: copy_channels(&self.dvr_channels),
            server_host: self.server_host.clone(),
            server_port: self.server_port,
        }
    }
}

/// A copy of a channel list.
fn copy_channels(v: &Vec<u32>) -> (r: Vec<u32>)
    ensures
        r@ == v@,
{
    let r = v.clone();
    assert(r@ =~= v@);
    r
}

/// The values of the environment variables the configuration is read from;
/// `None` where a variable is unset (or not valid Unicode).
#[derive(Debug)]
pub struct EnvVars {
    pub dvr_host: Option<String>,
    pub dvr_rtsp_host: Option<String>,
    pub dvr_port: Option<String>,
    pub dvr_rtsp_port: Option<String>,
    pub dvr_username: Option<String>,
    pub dvr_password: Option<String>,
    pub dvr_channels: Option<String>,
    pub server_host: Option<String>,
    pub server_port: Option<String>,
}

/// The text of an optional value, or `default` when it is unset.
pub open spec fn text_or(raw: Option<String>, default: Seq<char>) -> Seq<char> {
    match raw {
        Some(s) => s@,
        None => default,
    }
}

/// The port a variable gives, its default standing in when it is unset.
pub open spec fn port_value(raw: Option<String>, default: Seq<char>) -> Option<nat> {
    parse_unsigned(text_or(raw, default), u16::MAX as nat)
}

/// The error `from_env` reports, checking the variables in this order:
/// `DVR_HOST`, `DVR_PORT`, `DVR_RTSP_PORT`, `DVR_USERNAME`, `DVR_PASSWORD`,
/// `DVR_CHANNELS`, `SERVER_PORT`.
pub open spec fn env_error(v: EnvVars, e: ConfigError) -> bool {
    if v.dvr_host is None {
        e matches ConfigError::Missing(EnvVar::DvrHost)
    } else if port_value(v.dvr_port, "80"@) is None {
        e matches ConfigError::InvalidPort(EnvVar::DvrPort)
    } else if port_value(v.dvr_rtsp_port, "554"@) is None {
        e matches ConfigError::InvalidPort(EnvVar::DvrRtspPort)
    } else if v.dvr_username is None {
        e matches ConfigError::Missing(EnvVar::DvrUsername)
    } else if v.dvr_password is None {
        e matches ConfigError::Missing(EnvVar::DvrPassword)
    } else if channels_fail(v.dvr_channels) {
        channels_outcome(v.dvr_channels, Err(e))
    } else {
        port_value(v.server_port, "3001"@) is None && e matches ConfigError::InvalidPort(
            EnvVar::ServerPort,
        )
    }
}

/// The configuration `from_env` builds when every variable is acceptable.
pub open spec fn env_config(v: EnvVars, c: AppConfig) -> bool {
    &&& v.dvr_host matches Some(h) && c.dvr_host@ == h@
    &&& c.dvr_rtsp_host@ == text_or(v.dvr_rtsp_host, text_or(v.dvr_host, Seq::empty()))
    &&& port_value(v.dvr_port, "80"@) == Some(c.dvr_port as nat)
    &&& port_value(v.dvr_rtsp_port, "554"@) == Some(c.dvr_rtsp_port as nat)
    &&& v.dvr_username matches Some(u) && c.dvr_username@ == u@
    &&& v.dvr_password matches Some(p) && c.dvr_password@ == p@
    &&& channels_outcome(v.dvr_channels, Ok(c.dvr_channels))
    &&& c.server_host@ == text_or(v.server_host, "0.0.0.0"@)
    &&& port_value(v.server_port, "3001"@) == Some(c.server_port as nat)
}

/// What the environment's values give when `from_env` succeeds: each port
/// left unset takes its default (80, 554, 3001), a port given as the
/// decimal writing of a number is that number, an unset RTSP host is the
/// DVR host, an unset server host is `0.0.0.0`, and an unset
/// `DVR_CHANNELS` gives no channels.
pub proof fn lemma_env_values(v: EnvVars, c: AppConfig, n: nat)
    requires
        env_config(v, c),
    ensures
        v.dvr_port is None ==> c.dvr_port == 80,
        v.dvr_rtsp_port is None ==> c.dvr_rtsp_port == 554,
        v.server_port is None ==> c.server_port == 3001,
        v.dvr_port matches Some(p) && p@ == decimal(n) ==> c.dvr_port == n,
        v.dvr_rtsp_port matches Some(p) && p@ == decimal(n) ==> c.dvr_rtsp_port == n,
        v.server_port matches Some(p) && p@ == decimal(n) ==> c.server_port == n,
        v.dvr_rtsp_host is None ==> c.dvr_rtsp_host@ == c.dvr_host@,
        v.server_host is None ==> c.server_host@ == "0.0.0.0"@,
        v.dvr_channels is None ==> c.dvr_channels@.len() == 0,
{
    reveal_strlit("80");
    reveal_strlit("554");
    reveal_strlit("3001");
    assert(decimal(80) =~= "80"@) by {
        assert(decimal(8) =~= seq!['8']);
    }
    assert(decimal(554) =~= "554"@) by {
        assert(decimal(5) =~= seq!['5']);
        assert(decimal(55) =~= seq!['5', '5']);
    }
    assert(decimal(3001) =~= "3001"@) by {
        assert(decimal(3) =~= seq!['3']);
        assert(decimal(30) =~= seq!['3', '0']);
        assert(decimal(300) =~= seq!['3', '0', '0']);
    }
    lemma_parse_decimal(80, u16::MAX as nat);
    lemma_parse_decimal(554, u16::MAX as nat);
    lemma_parse_decimal(3001, u16::MAX as nat);
    if n <= u16::MAX {
        lemma_parse_decimal(n, u16::MAX as nat);
    } else {
        crate::text::lemma_decimal_digits(n);
    }
}

/// The text of an optional value, or `default` when it is unset.
fn text_or_default(raw: &Option<String>, default: &str) -> (r: String)
    ensures
        r@ == text_or(*raw, default@),
{
    match raw {
        Some(s) => s.clone(),
        None => owned(default),
    }
}

/// Parses a port variable, `default` standing in when it is unset.
fn parse_port(raw: &Option<String>, default: &str) -> (r: Option<u16>)
    ensures
        match r {
            Some(p) => port_value(*raw, default@) == Some(p as nat),
            None => port_value(*raw, default@) is None,
        },
{
    let text = text_or_default(raw, default);
    let cs = chars_of(text.as_str());
    assert(cs@.subrange(0, cs@.len() as int) == cs@);
    match parse_unsigned_range(&cs, 0, cs.len(), 65535) {
        Some(p) => Some(p as u16),
        None => None,
    }
}

impl AppConfig {
    /// Builds the configuration from the environment's values: `DVR_HOST`,
    /// `DVR_USERNAME` and `DVR_PASSWORD` are required; the ports default to
    /// 80, 554 and 3001, the server host to `0.0.0.0`, the RTSP host to
    /// `DVR_HOST`, and `DVR_CHANNELS` to no channels.
    pub fn from_env(vars: &EnvVars) -> (r: Result<AppConfig, ConfigError>)
        ensures
            match r {
                Ok(c) => env_config(*vars, c),
                Err(e) => env_error(*vars, e),
            },
    {
        let dvr_host = match &vars.dvr_host {
            Some(h) => h.clone(),
            None => {
                return Err(ConfigError::Missing(EnvVar::DvrHost));
            },
        };
        let dvr_rtsp_host = match &vars.dvr_rtsp_host {
            Some(h) => h.clone(),
            None => dvr_host.clone(),
        };
        let dvr_port = match parse_port(&vars.dvr_port, "80") {
            Some(p) => p,
            None => {
                return Err(ConfigError::InvalidPort(EnvVar::DvrPort));
            },
        };
        let dvr_rtsp_port = match parse_port(&vars.dvr_rtsp_port, "554") {
            Some(p) => p,
            None => {
                return Err(ConfigError::InvalidPort(EnvVar::DvrRtspPort));
            },
        };
        let dvr_username = match &vars.dvr_username {
            Some(u) => u.clone(),
            None => {
                return Err(ConfigError::Missing(EnvVar::DvrUsername));
            },
        };
        let dvr_password = match &vars.dvr_password {
            Some(p) => p.clone(),
            None => {
                return Err(ConfigError::Missing(EnvVar::DvrPassword));
            },
        };
        let dvr_channels = match parse_dvr_channels(copy_opt_string(&vars.dvr_channels)) {
            Ok(c) => c,
            Err(e) => {
                return Err(e);
            },
        };
        let server_host = text_or_default(&vars.server_host, "0.0.0.0");
        let server_port = match parse_port(&vars.server_port, "3001") {
            Some(p) => p,
            None => {
                return Err(ConfigError::InvalidPort(EnvVar::ServerPort));
            },
        };
        Ok(AppConfig {
            dvr_host,
            dvr_rtsp_host,
            dvr_port,
            dvr_rtsp_port,
            dvr_username,
            dvr_password,
            dvr_channels,
            server_host,
            server_port,
        })
    }

    /// The RTSP URL of `channel`, built from the encoded credentials, the
    /// RTSP host and port, and the Hikvision channel id.
    pub open spec fn rtsp_url_text(self, channel: u32) -> Seq<char> {
        "rtsp://"@ + encode_userinfo(self.dvr_username@) + ":"@ + encode_userinfo(
            self.dvr_password@,
        ) + "@"@ + self.dvr_rtsp_host@ + ":"@ + decimal(self.dvr_rtsp_port as nat)
            + "/Streaming/Channels/"@ + decimal(rtsp_channel(channel) as nat)
    }

    /// Build an RTSP URL for a given channel ID.
    ///
    /// If channel is already a full Hikvision channel ID (e.g. 101, 201),
    /// use it as-is. If a short channel index is provided (e.g. 1, 2),
    /// convert to main stream style (101, 201).
    pub fn rtsp_url(&self, channel: u32) -> (r: String)
        ensures
            r@ == self.rtsp_url_text(channel),
    {
        let username = encode_rtsp_userinfo(self.dvr_username.as_str());
        let password = encode_rtsp_userinfo(self.dvr_password.as_str());
        let rtsp_channel = if channel >= 100 {
            channel
        } else {
            channel * 100 + 1
        };
        let mut url = owned("rtsp://");
        push_text(&mut url, username.as_str());
        push_text(&mut url, ":");
        push_text(&mut url, password.as_str());
        push_text(&mut url, "@");
        push_text(&mut url, self.dvr_rtsp_host.as_str());
        push_text(&mut url, ":");
        push_decimal(&mut url, self.dvr_rtsp_port as u64);
        push_text(&mut url, "/Streaming/Channels/");
        push_decimal(&mut url, rtsp_channel as u64);
        url
    }
}

/// The RTSP URL of a channel up to its channel id: the encoded
/// credentials, the RTSP host and port, and the path
/// `/Streaming/Channels/`.
pub open spec fn rtsp_url_base(cfg: AppConfig) -> Seq<char> {
    "rtsp://"@ + encode_userinfo(cfg.dvr_username@) + ":"@ + encode_userinfo(cfg.dvr_password@)
        + "@"@ + cfg.dvr_rtsp_host@ + ":"@ + decimal(cfg.dvr_rtsp_port as nat)
        + "/Streaming/Channels/"@
}

/// The URL of a channel ends with the channel id it is for: a full
/// Hikvision id (100 and above) is used as it is, and a short index `n`
/// names the main stream `n * 100 + 1`; the id after the base parses back
/// to that number.
pub proof fn lemma_rtsp_url_channel(cfg: AppConfig, channel: u32)
    ensures
        channel >= 100 ==> cfg.rtsp_url_text(channel) == rtsp_url_base(cfg) + decimal(
            channel as nat,
        ),
        channel < 100 ==> cfg.rtsp_url_text(channel) == rtsp_url_base(cfg) + decimal(
            channel as nat * 100 + 1,
        ),
        parse_unsigned(
            cfg.rtsp_url_text(channel).skip(rtsp_url_base(cfg).len() as int),
            u32::MAX as nat,
        ) == Some(if channel >= 100 { channel as nat } else { channel as nat * 100 + 1 }),
{
    let base = rtsp_url_base(cfg);
    let n: nat = if channel >= 100 { channel as nat } else { channel as nat * 100 + 1 };
    assert(cfg.rtsp_url_text(channel) =~= base + decimal(n));
    assert((base + decimal(n)).skip(base.len() as int) =~= decimal(n));
    lemma_parse_decimal(n, u32::MAX as nat);
}

/// A short channel index from 1 to 99 and the full id of its main stream
/// give the same URL (index 0 names id 1, which is itself short).
pub proof fn lemma_short_index_is_main_stream(cfg: AppConfig, channel: u32)
    requires
        1 <= channel < 100,
    ensures
        cfg.rtsp_url_text(channel) == cfg.rtsp_url_text((channel * 100 + 1) as u32),
{
    let full = (channel * 100 + 1) as u32;
    assert(100 <= channel * 100 + 1 <= 9901) by (nonlinear_arith)
        requires
            1 <= channel < 100,
    ;
    assert(full as nat == channel as nat * 100 + 1);
    lemma_rtsp_url_channel(cfg, channel);
    lemma_rtsp_url_channel(cfg, full);
}

/// Two different full channel ids never give the same URL.
pub proof fn lemma_full_ids_distinct(cfg: AppConfig, a: u32, b: u32)
    requires
        a >= 100,
        b >= 100,
        a != b,
    ensures
        cfg.rtsp_url_text(a) != cfg.rtsp_url_text(b),
{
    lemma_rtsp_url_channel(cfg, a);
    lemma_rtsp_url_channel(cfg, b);
}

/// The Hikvision channel id for a channel: ids of 100 and above are kept;
/// a short index `n` becomes the main stream `n * 100 + 1`.
pub open spec fn rtsp_channel(channel: u32) -> nat {
    if channel >= 100 {
        channel as nat
    } else {
        (channel * 100 + 1) as nat
    }
}

} // verus!

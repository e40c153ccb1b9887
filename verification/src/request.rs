//! The latest match of a player, fetched from the match service.

use crate::match_info::{copy_match, match_slice, matches_in, MatchInfo, MatchResponse};
use crate::sd_card::Config;
use crate::text::{ascii_len, encode_concat, utf8_len};
use vstd::prelude::*;
use vstd::slice::slice_subrange;
use vstd::utf8::{
    decode_utf8_split, encode_utf8, encode_utf8_decode_utf8, encode_utf8_valid_utf8,
    is_char_boundary, is_char_boundary_start_end_of_seq, valid_utf8, valid_utf8_split,
};

verus! {

/// What the address of every request starts with.
pub open spec fn base_url() -> Seq<char> {
    "https://api.henrikdev.xyz/valorant/v3/matches/"@
}

/// The address of the matches of a player.
pub open spec fn match_url(region: Seq<char>, name: Seq<char>, tag: Seq<char>) -> Seq<char> {
    base_url() + region + seq!['/'] + name + seq!['/'] + tag
}

/// Copies `piece` into `buf` at `pos` and returns the position behind it.
fn put(buf: &mut [u8], pos: usize, piece: &[u8]) -> (end: usize)
    requires
        pos + piece@.len() <= old(buf)@.len(),
    ensures
        end == pos + piece@.len(),
        final(buf)@ == old(buf)@.take(pos as int) + piece@ + old(buf)@.skip(end as int),
{
    let room = buf.len();
    let mut i: usize = 0;
    while i < piece.len()
        invariant
            i <= piece@.len(),
            pos + piece@.len() <= room == old(buf)@.len(),
            buf@ =~= old(buf)@.take(pos as int) + piece@.take(i as int) + old(buf)@.skip(pos + i),
        decreases piece@.len() - i,
    {
        buf[pos + i] = piece[i];
        i = i + 1;
    }
    assert(piece@.take(piece@.len() as int) =~= piece@);
    pos + piece.len()
}

/// Builds the address of the matches of a player at the front of `buf`.
pub fn build_url<'a>(buf: &'a mut [u8], region: &str, name: &str, tag: &str) -> (url: &'a str)
    requires
        utf8_len(match_url(region@, name@, tag@)) <= old(buf)@.len(),
    ensures
        url@ == match_url(region@, name@, tag@),
        url@ == "https://api.henrikdev.xyz/valorant/v3/matches/"@ + region@ + seq!['/'] + name@
            + seq!['/'] + tag@,
        final(buf)@ == encode_utf8(url@) + old(buf)@.skip(utf8_len(url@) as int),
{
    let base = "https://api.henrikdev.xyz/valorant/v3/matches/";
    let slash = "/";
    proof {
        reveal_strlit("/");
        assert(slash@ =~= seq!['/']);
        encode_concat(base_url(), region@);
        encode_concat(base_url() + region@, seq!['/']);
        encode_concat(base_url() + region@ + seq!['/'], name@);
        encode_concat(base_url() + region@ + seq!['/'] + name@, seq!['/']);
        encode_concat(base_url() + region@ + seq!['/'] + name@ + seq!['/'], tag@);
    }
    let mut pos = put(buf, 0, base.as_bytes());
    pos = put(buf, pos, region.as_bytes());
    pos = put(buf, pos, slash.as_bytes());
    pos = put(buf, pos, name.as_bytes());
    pos = put(buf, pos, slash.as_bytes());
    pos = put(buf, pos, tag.as_bytes());
    let ghost want = match_url(region@, name@, tag@);
    assert(buf@.take(pos as int) =~= encode_utf8(want));
    assert(buf@ =~= encode_utf8(want) + old(buf)@.skip(pos as int));
    proof {
        encode_utf8_valid_utf8(want);
    }
    match core::str::from_utf8(slice_subrange(buf, 0, pos)) {
        Ok(url) => {
            proof {
                encode_utf8_decode_utf8(url@);
                encode_utf8_decode_utf8(want);
            }
            url
        },
        Err(_) => "https://api.henrikdev.xyz/valorant/v3/matches/eu/PlayerName/TAG",
    }
}

/// What a request asks the service to do.
#[derive(Debug, Clone, Copy, PartialEq, Eq, Structural)]
pub enum RequestMethod {
    Get,
}

/// A header of a request.
pub struct Header {
    pub name: &'static str,
    pub value: String,
}

/// A step of fetching the latest match: what is to be done next.
pub enum FetchStep {
    /// Open a connection and start a request for the address. `key` is what the
    /// request will be authorized with.
    CreateRequest { method: RequestMethod, url: String, key: String },
    /// Send the request with this header.
    SendRequest { header: Header },
    /// Read the whole body of the response.
    ReadBody,
    /// Parse the body.
    ParseBody { body: String },
    /// The match, if one was found.
    Done { info: Option<MatchInfo> },
}

/// How a step went.
pub enum FetchEvent<'a> {
    Failed,
    /// A request was created or sent.
    Accepted,
    /// The body of the response.
    Body(&'a [u8]),
    /// What the body holds.
    Parsed(&'a MatchResponse<'a>),
}

impl FetchStep {
    /// Whether `event` can be the end of this step.
    pub open spec fn answered_by(self, event: FetchEvent<'_>) -> bool {
        match self {
            FetchStep::CreateRequest { .. } | FetchStep::SendRequest { .. } => event is Failed
                || event is Accepted,
            FetchStep::ReadBody => event is Failed || event is Body,
            FetchStep::ParseBody { .. } => event is Failed || event is Parsed,
            FetchStep::Done { .. } => false,
        }
    }

    /// Whether this is the first step of a fetch for the configured player.
    pub open spec fn starts(self, config: Config) -> bool {
        &&& self is CreateRequest
        &&& self->method is Get
        &&& self->url@ == match_url(
            config.player_region@,
            config.player_name@,
            config.player_tag@,
        )
        &&& self->key@ == config.api_key@
    }

    /// Whether a request is to be sent that is authorized with `key`.
    pub open spec fn sends(self, key: Seq<char>) -> bool {
        self is SendRequest && self->header.name@ == "Authorization"@ && self->header.value@ == key
    }

    pub open spec fn found_nothing(self) -> bool {
        self is Done && self->info is None
    }

    /// Whether this step follows `before` when that ended with `event`.
    pub open spec fn follows(self, before: FetchStep, event: FetchEvent<'_>) -> bool {
        match event {
            FetchEvent::Failed => self.found_nothing(),
            FetchEvent::Accepted => if before is CreateRequest {
                self.sends(before->key@)
            } else {
                self is ReadBody
            },
            FetchEvent::Body(bytes) => if valid_utf8(bytes@) {
                self is ParseBody && encode_utf8(self->body@) == bytes@
            } else {
                self.found_nothing()
            },
            FetchEvent::Parsed(response) => {
                &&& self is Done
                &&& self->info is Some <==> matches_in(response.data).len() > 0
                &&& self->info is Some ==> self->info->Some_0.copies(matches_in(response.data)[0])
            },
        }
    }

    /// Starts a fetch for the configured player.
    pub fn start(config: &Config) -> (step: FetchStep)
        ensures
            step.starts(*config),
            step is CreateRequest && step->method is Get && step->key@ == config.api_key@,
            step->url@ == "https://api.henrikdev.xyz/valorant/v3/matches/"@ + config.player_region@
                + seq!['/'] + config.player_name@ + seq!['/'] + config.player_tag@,
    {
        let region = config.player_region.as_str();
        let name = config.player_name.as_str();
        let tag = config.player_tag.as_str();
        let mut buf = [0u8; URL_BUFFER_SIZE];
        proof {
            url_fits(region@, name@, tag@);
        }
        let url = build_url(&mut buf, region, name, tag).to_owned();
        FetchStep::CreateRequest {
            method: RequestMethod::Get,
            url,
            key: config.api_key.as_str().to_owned(),
        }
    }

    /// Goes on after this step has ended with `event`.
    ///
    /// The first match of a response is taken, whatever the status that the
    /// response reports.
    pub fn next(&self, event: FetchEvent<'_>) -> (next: FetchStep)
        requires
            self.answered_by(event),
        ensures
            next.follows(*self, event),
    {
        match event {
            FetchEvent::Failed => FetchStep::Done { info: None },
            FetchEvent::Accepted => match self {
                FetchStep::CreateRequest { key, .. } => FetchStep::SendRequest {
                    header: Header { name: "Authorization", value: key.clone() },
                },
                _ => FetchStep::ReadBody,
            },
            FetchEvent::Body(bytes) => match core::str::from_utf8(bytes) {
                Ok(body) => FetchStep::ParseBody { body: body.to_owned() },
                Err(_) => FetchStep::Done { info: None },
            },
            FetchEvent::Parsed(response) => {
                let data = match_slice(&response.data);
                if data.len() > 0 {
                    FetchStep::Done { info: Some(copy_match(&data[0])) }
                } else {
                    FetchStep::Done { info: None }
                }
            },
        }
    }
}

/// Whether `steps` is a whole fetch for the configured player whose steps ended with
/// `events`.
pub open spec fn is_fetch(
    config: Config,
    steps: Seq<FetchStep>,
    events: Seq<FetchEvent<'_>>,
) -> bool {
    &&& steps.len() == events.len() + 1
    &&& steps[0].starts(config)
    &&& steps.last() is Done
    &&& forall|i: int|
        0 <= i < events.len() ==> steps[i].answered_by(#[trigger] events[i]) && steps[i
            + 1].follows(steps[i], events[i])
}

/// Whether a step went wrong, or found nothing to go on with.
pub open spec fn is_setback(event: FetchEvent<'_>) -> bool {
    match event {
        FetchEvent::Failed => true,
        FetchEvent::Accepted => false,
        FetchEvent::Body(bytes) => !valid_utf8(bytes@),
        FetchEvent::Parsed(response) => matches_in(response.data).len() == 0,
    }
}

/// A fetch finds nothing exactly when one of its steps went wrong. Otherwise it
/// took all four steps, and what it found is the match in the response. A request is
/// sent with the configured key alone.
pub proof fn fetch_finds_match_or_failed(
    config: Config,
    steps: Seq<FetchStep>,
    events: Seq<FetchEvent<'_>>,
)
    requires
        is_fetch(config, steps, events),
    ensures
        forall|i: int|
            0 <= i < steps.len() && (#[trigger] steps[i]) is SendRequest ==> steps[i].sends(
                config.api_key@,
            ),
        steps.last().found_nothing() <==> exists|i: int|
            0 <= i < events.len() && is_setback(#[trigger] events[i]),
        !steps.last().found_nothing() ==> events.len() == 4 && events[3] is Parsed
            && steps.last()->info->Some_0.copies(matches_in(events[3]->Parsed_0.data)[0]),
{
    assert(events.len() > 0);
    assert(steps[0].answered_by(events[0]) && steps[1].follows(steps[0], events[0]));
    if is_setback(events[0]) {
        assert(events.len() == 1) by {
            if events.len() > 1 {
                assert(steps[1].answered_by(events[1]));
            }
        }
    } else {
        assert(events.len() > 1);
        assert(steps[1].answered_by(events[1]) && steps[2].follows(steps[1], events[1]));
        if is_setback(events[1]) {
            assert(events.len() == 2) by {
                if events.len() > 2 {
                    assert(steps[2].answered_by(events[2]));
                }
            }
        } else {
            assert(events.len() > 2);
            assert(steps[2].answered_by(events[2]) && steps[3].follows(steps[2], events[2]));
            if is_setback(events[2]) {
                assert(events.len() == 3) by {
                    if events.len() > 3 {
                        assert(steps[3].answered_by(events[3]));
                    }
                }
            } else {
                assert(events.len() > 3);
                assert(steps[3].answered_by(events[3]) && steps[4].follows(steps[3], events[3]));
                assert(events.len() == 4) by {
                    if events.len() > 4 {
                        assert(steps[4].answered_by(events[4]));
                    }
                }
                assert(is_setback(events[3]) == steps[4].found_nothing());
            }
        }
    }
}

/// The size of the buffer in which an address is built.
pub const URL_BUFFER_SIZE: usize = 128;

/// The address of any player whose region and tag take at most eight bytes and
/// whose name takes at most thirty-two fits into the buffer.
pub proof fn url_fits(region: Seq<char>, name: Seq<char>, tag: Seq<char>)
    requires
        utf8_len(region) <= 8,
        utf8_len(name) <= 32,
        utf8_len(tag) <= 8,
    ensures
        utf8_len(match_url(region, name, tag)) <= URL_BUFFER_SIZE,
{
    reveal_strlit("https://api.henrikdev.xyz/valorant/v3/matches/");
    let base = base_url();
    let slash = seq!['/'];
    ascii_len(base);
    ascii_len(slash);
    encode_concat(base, region);
    encode_concat(base + region, slash);
    encode_concat(base + region + slash, name);
    encode_concat(base + region + slash + name, slash);
    encode_concat(base + region + slash + name + slash, tag);
}

/// The number of bytes of a body that are shown where it cannot be parsed.
pub const PREVIEW_MAX: usize = 200;

/// The start of a body, cut between characters: the longest one that takes no more
/// than [`PREVIEW_MAX`] bytes.
pub fn preview(body: &str) -> (cut: &str)
    ensures
        cut@.is_prefix_of(body@),
        utf8_len(cut@) <= PREVIEW_MAX,
        encode_utf8(cut@).len() <= 200,
        encode_utf8(body@).len() <= 200 ==> cut@ == body@,
        utf8_len(body@) <= PREVIEW_MAX ==> cut@ == body@,
        forall|n: int|
            utf8_len(cut@) < n <= PREVIEW_MAX && n <= utf8_len(body@) ==> !#[trigger]
                is_char_boundary(encode_utf8(body@), n),
{
    let ghost bytes = encode_utf8(body@);
    if body.as_bytes().len() <= PREVIEW_MAX {
        return body;
    }
    proof {
        encode_utf8_valid_utf8(body@);
        is_char_boundary_start_end_of_seq(bytes);
    }
    let mut end: usize = PREVIEW_MAX;
    while !body.is_char_boundary(end)
        invariant
            bytes == encode_utf8(body@),
            end <= PREVIEW_MAX < bytes.len(),
            is_char_boundary(bytes, 0),
            forall|n: int| end < n <= PREVIEW_MAX ==> !#[trigger] is_char_boundary(bytes, n),
        decreases end,
    {
        end = end - 1;
    }
    let (cut, rest) = body.split_at(end);
    proof {
        valid_utf8_split(bytes, end as int);
        decode_utf8_split(bytes, end as int);
        encode_utf8_decode_utf8(body@);
        encode_utf8_decode_utf8(cut@);
        encode_utf8_decode_utf8(rest@);
        assert(body@ =~= cut@ + rest@);
    }
    cut
}

/// Whether a text holds no slash.
pub open spec fn has_no_slash(s: Seq<char>) -> bool {
    forall|i: int| 0 <= i < s.len() ==> s[i] != '/'
}

/// An address gives back what it was built from: behind the address of the service, the
/// part before the first slash is the region, the part behind the last slash is the tag,
/// and the part between the two is the name.
pub proof fn addresses_give_back_their_parts(
    region: Seq<char>,
    name: Seq<char>,
    tag: Seq<char>,
    i: int,
)
    requires
        forall|i: int| 0 <= i < region.len() ==> region[i] != '/',
        forall|i: int| 0 <= i < tag.len() ==> tag[i] != '/',
    ensures
        ({
            let base = "https://api.henrikdev.xyz/valorant/v3/matches/"@;
            let url = match_url(region, name, tag);
            let rest = url.skip(base.len() as int);
            let first = region.len() as int;
            let last = rest.len() - tag.len() - 1;
            &&& url.take(base.len() as int) == base
            &&& url.len() == base.len() + region.len() + name.len() + tag.len() + 2
            &&& 0 <= i < first ==> rest[i] != '/'
            &&& rest[first] == '/'
            &&& rest[last] == '/'
            &&& last < i < rest.len() ==> rest[i] != '/'
            &&& rest.take(first) == region
            &&& rest.subrange(first + 1, last) == name
            &&& rest.skip(last + 1) == tag
        }),
{
    let base = base_url();
    let url = match_url(region, name, tag);
    let rest = url.skip(base.len() as int);
    let first = region.len() as int;
    let last = rest.len() - tag.len() - 1;
    assert(url.take(base.len() as int) =~= base);
    assert(rest =~= region + seq!['/'] + name + seq!['/'] + tag);
    assert(rest.take(first) =~= region);
    assert(rest.subrange(first + 1, last) =~= name);
    assert(rest.skip(last + 1) =~= tag);
    if 0 <= i < first {
        assert(rest[i] == region[i]);
    }
    if last < i < rest.len() {
        assert(rest[i] == tag[i - last - 1]);
    }
}

/// Different players have different addresses.
pub proof fn different_players_have_different_addresses(
    region1: Seq<char>,
    name1: Seq<char>,
    tag1: Seq<char>,
    region2: Seq<char>,
    name2: Seq<char>,
    tag2: Seq<char>,
)
    requires
        has_no_slash(region1) && has_no_slash(name1) && has_no_slash(tag1),
        has_no_slash(region2) && has_no_slash(name2) && has_no_slash(tag2),
        match_url(region1, name1, tag1) == match_url(region2, name2, tag2),
    ensures
        region1 == region2,
        name1 == name2,
        tag1 == tag2,
{
    let base = "https://api.henrikdev.xyz/valorant/v3/matches/"@;
    let rest = match_url(region1, name1, tag1).skip(base.len() as int);
    let last1 = rest.len() - tag1.len() - 1;
    let last2 = rest.len() - tag2.len() - 1;
    addresses_give_back_their_parts(region1, name1, tag1, region2.len() as int);
    addresses_give_back_their_parts(region1, name1, tag1, last2);
    addresses_give_back_their_parts(region2, name2, tag2, region1.len() as int);
    addresses_give_back_their_parts(region2, name2, tag2, last1);
}

/// A step takes any answer that it can get: every step but the last can fail, a request
/// can be accepted, a body can hold any bytes, and it can be parsed to any response.
pub proof fn every_answer_is_taken(step: FetchStep, bytes: &[u8], response: &MatchResponse<'_>)
    ensures
        step is Done || step.answered_by(FetchEvent::Failed),
        step is CreateRequest || step is SendRequest ==> step.answered_by(FetchEvent::Accepted),
        step is ReadBody ==> step.answered_by(FetchEvent::Body(bytes)),
        step is ParseBody ==> step.answered_by(FetchEvent::Parsed(response)),
{
}

/// What follows a step: a failure ends the fetch with nothing; an accepted request is
/// sent with the key in its `Authorization` header, and once it is sent the body is
/// read; a body goes on to be parsed byte for byte, unless it is not text; and the match
/// found is the first one of the response.
pub proof fn steps_follow_from_their_answers(
    next: FetchStep,
    before: FetchStep,
    event: FetchEvent<'_>,
)
    requires
        before.answered_by(event),
        next.follows(before, event),
    ensures
        event is Failed ==> next is Done && next->info is None,
        event is Accepted && before is CreateRequest ==> next is SendRequest
            && next->header.name@ == "Authorization"@ && next->header.value@ == before->key@,
        event is Accepted && before is SendRequest ==> next is ReadBody,
        event matches FetchEvent::Body(bytes) ==> (if valid_utf8(bytes@) {
            next is ParseBody && encode_utf8(next->body@) == bytes@
        } else {
            next is Done && next->info is None
        }),
        event matches FetchEvent::Parsed(response) ==> next is Done && (if matches_in(
            response.data,
        ).len() == 0 {
            next->info is None
        } else {
            next->info is Some && next->info->Some_0.copies(matches_in(response.data)[0])
        }),
{
}

/// A fetch in which nothing goes wrong asks for the address of the configured player
/// with the configured key, hands on every byte of the body, and ends with the match
/// that the response holds.
pub proof fn whole_fetch_finds_the_match(
    config: Config,
    created: FetchStep,
    sent: FetchStep,
    read: FetchStep,
    parsing: FetchStep,
    done: FetchStep,
    bytes: &[u8],
    response: &MatchResponse<'_>,
)
    requires
        created.starts(config),
        sent.follows(created, FetchEvent::Accepted),
        read.follows(sent, FetchEvent::Accepted),
        parsing.follows(read, FetchEvent::Body(bytes)),
        done.follows(parsing, FetchEvent::Parsed(response)),
        valid_utf8(bytes@),
        matches_in(response.data).len() > 0,
    ensures
        created is CreateRequest && created->method is Get,
        created->url@ == "https://api.henrikdev.xyz/valorant/v3/matches/"@ + config.player_region@
            + seq!['/'] + config.player_name@ + seq!['/'] + config.player_tag@,
        sent is SendRequest && sent->header.name@ == "Authorization"@ && sent->header.value@
            == config.api_key@,
        read is ReadBody,
        parsing is ParseBody && encode_utf8(parsing->body@) == bytes@,
        done is Done && done->info is Some,
        done->info->Some_0.copies(matches_in(response.data)[0]),
{
}

} // verus!

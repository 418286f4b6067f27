//! Audio devices and audio chunks.

use crate::encoder::laws;
use crate::protocol;
use crate::protocol::MSG_AUDIO_DATA;
use crate::text;
use crate::wire;
use vstd::prelude::*;
use vstd::slice::slice_subrange;

verus! {

/// Bytes of one audio chunk: 20 ms of 48 kHz stereo in 32-bit floats.
pub const CHUNK_BYTES: usize = 7680;

// ── Devices ────────────────────────────────────────────────────────

/// The source named in a line of `pactl list sources short`: its second word.
pub open spec fn pactl_source(line: Seq<char>) -> Option<Seq<char>> {
    let w = text::words(line);
    if w.len() >= 2 {
        Some(w[1])
    } else {
        None
    }
}

/// Whether a source captures what is played.
pub open spec fn is_monitor(name: Seq<char>) -> bool {
    text::occurs(name, ".monitor"@)
}

/// The sources among `ls` that are monitors, or those that are not.
pub open spec fn pactl_sources(ls: Seq<Seq<char>>, monitors: bool) -> Seq<Seq<char>>
    decreases ls.len(),
{
    if ls.len() == 0 {
        Seq::empty()
    } else {
        let before = pactl_sources(ls.drop_last(), monitors);
        match pactl_source(ls.last()) {
            Some(name) => if is_monitor(name) == monitors {
                before.push(name)
            } else {
                before
            },
            None => before,
        }
    }
}

/// Reads the output of `pactl list sources short`: all sources, the monitors
/// first.
pub fn parse_pactl_sources(stdout: &str) -> (r: Vec<String>)
    ensures
        text::texts(r@) == pactl_sources(text::lines(stdout@), true) + pactl_sources(
            text::lines(stdout@),
            false,
        ),
{
    let chars = text::chars_of(stdout);
    let lines = text::split_lines(chars.as_slice());
    let ghost all = text::lines(stdout@);
    let mut monitors: Vec<String> = Vec::new();
    let mut others: Vec<String> = Vec::new();
    let mut i: usize = 0;
    proof {
        assert(text::texts(monitors@) =~= pactl_sources(all.take(0), true));
        assert(text::texts(others@) =~= pactl_sources(all.take(0), false));
    }
    while i < lines.len()
        invariant
            i <= lines@.len(),
            text::pieces(lines@) == all,
            text::texts(monitors@) == pactl_sources(all.take(i as int), true),
            text::texts(others@) == pactl_sources(all.take(i as int), false),
        decreases lines@.len() - i,
    {
        let words = text::split_whitespace(lines[i]);
        proof {
            assert(all[i as int] == lines@[i as int]@);
            assert(all.take(i + 1).drop_last() =~= all.take(i as int));
            assert(text::words(all[i as int]).len() == words@.len());
        }
        if words.len() >= 2 {
            let name = words[1];
            proof {
                assert(text::words(all[i as int])[1] == name@);
            }
            if text::contains(name, ".monitor") {
                let ghost before = monitors@;
                monitors.push(text::string_of(name));
                proof {
                    assert(text::texts(monitors@) =~= text::texts(before).push(name@));
                }
            } else {
                let ghost before = others@;
                others.push(text::string_of(name));
                proof {
                    assert(text::texts(others@) =~= text::texts(before).push(name@));
                }
            }
        }
        i = i + 1;
    }
    proof {
        assert(all.take(i as int) =~= all);
    }
    let ghost first = monitors@;
    let ghost second = others@;
    monitors.append(&mut others);
    proof {
        assert(text::texts(monitors@) =~= text::texts(first) + text::texts(second));
    }
    monitors
}

/// The source named in a line of FFmpeg's list: without the star that marks
/// the default, and up to the description in brackets.
pub open spec fn listed_source(line: Seq<char>) -> Seq<char> {
    let part = text::trimmed(text::without_leading(text::trimmed(line), '*'));
    let end = text::find(part, '[', 0);
    if end < part.len() {
        text::trimmed(part.subrange(0, end))
    } else {
        part
    }
}

/// Whether a line is the title of FFmpeg's list.
pub open spec fn is_list_title(line: Seq<char>) -> bool {
    text::starts(text::trimmed(line), "Auto-detected sources"@)
}

/// The sources that FFmpeg lists behind the title.
pub open spec fn listed_sources(ls: Seq<Seq<char>>, in_list: bool) -> Seq<Seq<char>>
    decreases ls.len(),
{
    if ls.len() == 0 {
        Seq::empty()
    } else if is_list_title(ls[0]) {
        listed_sources(ls.drop_first(), true)
    } else if in_list && listed_source(ls[0]).len() > 0 {
        seq![listed_source(ls[0])] + listed_sources(ls.drop_first(), true)
    } else {
        listed_sources(ls.drop_first(), in_list)
    }
}

/// Reads the output of `ffmpeg -sources pulse`.
pub fn parse_ffmpeg_pulse_sources(stderr: &str) -> (devices: Vec<String>)
    ensures
        text::texts(devices@) == listed_sources(text::lines(stderr@), false),
{
    let chars = text::chars_of(stderr);
    let lines = text::split_lines(chars.as_slice());
    let ghost all = text::lines(stderr@);
    let mut devices: Vec<String> = Vec::new();
    let mut in_list: bool = false;
    let mut i: usize = 0;
    proof {
        assert(all.skip(0) =~= all);
        assert(text::texts(devices@) + listed_sources(all, false) =~= listed_sources(all, false));
    }
    while i < lines.len()
        invariant
            i <= lines@.len(),
            text::pieces(lines@) == all,
            text::texts(devices@) + listed_sources(all.skip(i as int), in_list) == listed_sources(
                all,
                false,
            ),
        decreases lines@.len() - i,
    {
        let line = lines[i];
        proof {
            assert(all[i as int] == line@);
            assert(all.skip(i as int)[0] == line@);
            assert(all.skip(i as int).drop_first() =~= all.skip(i + 1));
        }
        let trimmed = text::trim(line);
        if text::starts_with(trimmed, "Auto-detected sources") {
            in_list = true;
        } else if in_list {
            let part = text::trim(text::trim_start_matches(trimmed, '*'));
            let end: usize = text::find_char(part, '[');
            let name = if end < part.len() {
                text::trim(slice_subrange(part, 0, end))
            } else {
                part
            };
            if name.len() > 0 {
                let ghost before = devices@;
                devices.push(text::string_of(name));
                proof {
                    let rest = listed_sources(all.skip(i + 1), true);
                    assert(text::texts(devices@) =~= text::texts(before).push(name@));
                    assert(text::texts(before) + (seq![name@] + rest) =~= text::texts(devices@)
                        + rest);
                }
            }
        }
        i = i + 1;
    }
    proof {
        assert(all.skip(i as int) =~= Seq::<Seq<char>>::empty());
        assert(text::texts(devices@) + Seq::<Seq<char>>::empty() =~= text::texts(devices@));
    }
    devices
}

/// What `pactl` tells of the audio devices: nothing if it failed.
pub fn enumerate_via_pactl(success: bool, stdout: &[u8]) -> (r: Option<Vec<String>>)
    ensures
        r is Some <==> success,
        r matches Some(v) ==> text::texts(v@) == pactl_devices(stdout@),
{
    if !success {
        return None;
    }
    let s = wire::text_from_bytes(stdout);
    Some(parse_pactl_sources(s.as_str()))
}

/// What FFmpeg tells of the audio devices in its error output.
pub fn enumerate_via_ffmpeg_pulse(stderr: &[u8]) -> (r: Vec<String>)
    ensures
        text::texts(r@) == listed_sources(text::lines(wire::text_of(stderr@)), false),
{
    let s = wire::text_from_bytes(stderr);
    parse_ffmpeg_pulse_sources(s.as_str())
}

/// Whether what `pactl` told is enough, or FFmpeg has to be asked.
pub fn pactl_is_enough(pactl: &Option<Vec<String>>) -> (r: bool)
    ensures
        r == (pactl matches Some(v) && v@.len() > 0),
{
    match pactl {
        Some(v) => v.len() > 0,
        None => false,
    }
}

/// The sources in the output of `pactl`, monitors first.
pub open spec fn pactl_devices(stdout: Seq<u8>) -> Seq<Seq<char>> {
    pactl_sources(text::lines(wire::text_of(stdout)), true) + pactl_sources(
        text::lines(wire::text_of(stdout)),
        false,
    )
}

/// The audio devices: what `pactl` tells, or what FFmpeg tells if `pactl`
/// could not be run, failed or knows of none.
pub open spec fn audio_devices(
    pactl: Option<(bool, Seq<u8>)>,
    ffmpeg: Option<Seq<u8>>,
) -> Seq<Seq<char>> {
    match pactl {
        Some((true, stdout)) if pactl_devices(stdout).len() > 0 => pactl_devices(stdout),
        _ => match ffmpeg {
            Some(stderr) => listed_sources(text::lines(wire::text_of(stderr)), false),
            None => Seq::empty(),
        },
    }
}

/// The audio devices, given the exit status and output of `pactl` and the
/// error output of FFmpeg, where they could be run.
pub fn enumerate_audio_devices(pactl: Option<(bool, &[u8])>, ffmpeg: Option<&[u8]>) -> (r: Vec<
    String,
>)
    ensures
        text::texts(r@) == audio_devices(
            match pactl {
                Some((success, stdout)) => Some((success, stdout@)),
                None => None,
            },
            match ffmpeg {
                Some(stderr) => Some(stderr@),
                None => None,
            },
        ),
{
    if let Some((success, stdout)) = pactl {
        let told = enumerate_via_pactl(success, stdout);
        if let Some(devices) = told {
            proof {
                assert(text::texts(devices@).len() == devices@.len());
            }
            if devices.len() > 0 {
                return devices;
            }
        }
    }
    match ffmpeg {
        Some(stderr) => enumerate_via_ffmpeg_pulse(stderr),
        None => {
            let none: Vec<String> = Vec::new();
            proof {
                assert(text::texts(none@) =~= Seq::<Seq<char>>::empty());
            }
            none
        },
    }
}

/// Whether a device name stands for the default device.
pub fn is_default_device(name: &str) -> (r: bool)
    ensures
        r == (text::lowered(name@) == text::lowered("default"@)),
{
    text::same_ignoring_case(name, "default")
}

/// The arguments that FFmpeg captures a PulseAudio device with.
pub open spec fn capture_args(device: Seq<char>) -> Seq<Seq<char>> {
    seq![
        "-hide_banner"@,
        "-loglevel"@,
        "error"@,
        "-f"@,
        "pulse"@,
        "-i"@,
        device,
        "-f"@,
        "f32le"@,
        "-ar"@,
        "48000"@,
        "-ac"@,
        "2"@,
        "pipe:1"@,
    ]
}

/// The arguments that FFmpeg captures a PulseAudio device with.
pub fn capture_command(device: &str) -> (args: Vec<String>)
    ensures
        text::texts(args@) == capture_args(device@),
{
    let mut args: Vec<String> = Vec::new();
    text::push_string(&mut args, "-hide_banner");
    text::push_string(&mut args, "-loglevel");
    text::push_string(&mut args, "error");
    text::push_string(&mut args, "-f");
    text::push_string(&mut args, "pulse");
    text::push_string(&mut args, "-i");
    text::push_string(&mut args, device);
    text::push_string(&mut args, "-f");
    text::push_string(&mut args, "f32le");
    text::push_string(&mut args, "-ar");
    text::push_string(&mut args, "48000");
    text::push_string(&mut args, "-ac");
    text::push_string(&mut args, "2");
    text::push_string(&mut args, "pipe:1");
    proof {
        assert(text::texts(args@) =~= capture_args(device@));
    }
    args
}

// ── Chunks ─────────────────────────────────────────────────────────

/// The whole chunks in `s`.
pub open spec fn chunk_count(s: Seq<u8>) -> nat {
    s.len() / 7680
}

/// The `i`-th chunk of `s`, as the message that carries it.
pub open spec fn chunk_message(s: Seq<u8>, i: int) -> Seq<u8> {
    seq![MSG_AUDIO_DATA] + s.subrange(7680 * i, 7680 * i + 7680)
}

/// The messages that carry the whole chunks of `s`.
pub open spec fn chunk_messages(s: Seq<u8>) -> Seq<Seq<u8>> {
    Seq::new(chunk_count(s), |i: int| chunk_message(s, i))
}

/// What is left of `s` behind its whole chunks.
pub open spec fn chunk_rest(s: Seq<u8>) -> Seq<u8> {
    s.subrange(7680 * chunk_count(s) as int, s.len() as int)
}

/// The bytes of a list of messages.
pub open spec fn message_bytes(v: Seq<Vec<u8>>) -> Seq<Seq<u8>> {
    Seq::new(v.len(), |i: int| v[i]@)
}

/// Cuts captured samples into chunks, each ready to be sent. What does not
/// fill a chunk waits for more.
pub struct AudioChunker {
    buf: Vec<u8>,
}

impl AudioChunker {
    /// The bytes that wait.
    pub closed spec fn pending(&self) -> Seq<u8> {
        self.buf@
    }

    /// Nothing waits.
    pub fn new() -> (r: Self)
        ensures
            r.pending() == Seq::<u8>::empty(),
    {
        AudioChunker { buf: Vec::new() }
    }

    /// Takes captured bytes and appends a message for each chunk that is now
    /// whole.
    pub fn push_samples(&mut self, data: &[u8], out: &mut Vec<Vec<u8>>)
        requires
            old(self).pending().len() + data@.len() <= usize::MAX,
        ensures
            message_bytes(final(out)@) == message_bytes(old(out)@) + chunk_messages(
                old(self).pending() + data@,
            ),
            final(self).pending() == chunk_rest(old(self).pending() + data@),
    {
        wire::put_bytes(&mut self.buf, data);
        let ghost s = self.buf@;
        let mut at: usize = 0;
        let ghost mut n: int = 0;
        proof {
            assert(chunk_messages(s).take(0) =~= Seq::<Seq<u8>>::empty());
            assert(message_bytes(out@) + Seq::<Seq<u8>>::empty() =~= message_bytes(out@));
        }
        while self.buf.len() - at >= CHUNK_BYTES
            invariant
                self.buf@ == s,
                0 <= n,
                at == 7680 * n,
                at <= s.len(),
                n <= chunk_count(s),
                message_bytes(out@) == message_bytes(old(out)@) + chunk_messages(s).take(n),
            decreases s.len() - at,
        {
            let mut chunk: Vec<u8> = Vec::with_capacity(CHUNK_BYTES + 1);
            chunk.push(MSG_AUDIO_DATA);
            wire::put_bytes(&mut chunk, slice_subrange(self.buf.as_slice(), at, at + CHUNK_BYTES));
            proof {
                assert(chunk@ =~= chunk_message(s, n));
            }
            let ghost before = out@;
            let ghost message = chunk@;
            out.push(chunk);
            at = at + CHUNK_BYTES;
            proof {
                assert(message_bytes(out@) =~= message_bytes(before).push(message));
                assert(n < chunk_count(s));
                assert(chunk_messages(s).take(n + 1) =~= chunk_messages(s).take(n).push(
                    chunk_messages(s)[n],
                ));
                n = n + 1;
            }
        }
        proof {
            assert(n == chunk_count(s));
            assert(chunk_messages(s).take(n) =~= chunk_messages(s));
        }
        let rest = self.buf.split_off(at);
        self.buf = rest;
    }
}

// ── Laws ───────────────────────────────────────────────────────────

/// Every chunk is an audio message of 20 ms, which the client reads as such.
pub proof fn law_chunks_are_audio_messages(s: Seq<u8>, i: int)
    requires
        0 <= i < chunk_count(s),
    ensures
        chunk_message(s, i) == protocol::server_bytes(
            (protocol::ServerModel::AudioData { data: s.subrange(7680 * i, 7680 * i + 7680) }),
        ),
        protocol::parse_server(chunk_message(s, i)) == Some(
            (protocol::ServerModel::AudioData { data: s.subrange(7680 * i, 7680 * i + 7680) }),
        ),
        chunk_message(s, i).len() == 7681,
{
    protocol::law_server_round_trip(
        protocol::ServerModel::AudioData { data: s.subrange(7680 * i, 7680 * i + 7680) },
    );
}

/// How captured bytes arrive does not matter: feeding `a` and then `b` gives
/// the same messages, and leaves the same bytes waiting, as feeding both at
/// once.
pub proof fn law_chunking(a: Seq<u8>, b: Seq<u8>)
    ensures
        chunk_messages(a) + chunk_messages(chunk_rest(a) + b) == chunk_messages(a + b),
        chunk_rest(chunk_rest(a) + b) == chunk_rest(a + b),
{
    let ab = a + b;
    let x = chunk_rest(a) + b;
    let n = chunk_count(a) as int;
    assert(x =~= ab.subrange(7680 * n, ab.len() as int));
    assert(chunk_count(ab) == n + chunk_count(x));
    let left = chunk_messages(a) + chunk_messages(x);
    let right = chunk_messages(ab);
    assert forall|i: int| 0 <= i < right.len() implies left[i] == right[i] by {
        if i < n {
            assert(a.subrange(7680 * i, 7680 * i + 7680) =~= ab.subrange(
                7680 * i,
                7680 * i + 7680,
            ));
        } else {
            let j = i - n;
            assert(x.subrange(7680 * j, 7680 * j + 7680) =~= ab.subrange(
                7680 * i,
                7680 * i + 7680,
            ));
        }
    }
    assert(left =~= right);
    assert(chunk_rest(x) =~= chunk_rest(ab));
}

/// The samples in the chunks, one behind the other.
pub open spec fn chunk_samples(s: Seq<u8>, n: int) -> Seq<u8>
    decreases n,
{
    if n <= 0 {
        Seq::empty()
    } else {
        chunk_samples(s, n - 1) + chunk_message(s, n - 1).drop_first()
    }
}

/// No sample is lost: the chunks and what waits are what was captured.
pub proof fn law_no_sample_lost(s: Seq<u8>)
    ensures
        chunk_samples(s, chunk_count(s) as int) + chunk_rest(s) == s,
{
    lemma_chunk_samples(s, chunk_count(s) as int);
    assert(chunk_samples(s, chunk_count(s) as int) + chunk_rest(s) =~= s);
}

proof fn lemma_chunk_samples(s: Seq<u8>, n: int)
    requires
        0 <= n <= chunk_count(s),
    ensures
        chunk_samples(s, n) == s.subrange(0, 7680 * n),
    decreases n,
{
    if n > 0 {
        lemma_chunk_samples(s, n - 1);
        assert(chunk_message(s, n - 1).drop_first() =~= s.subrange(7680 * (n - 1), 7680 * n));
        assert(chunk_samples(s, n) =~= s.subrange(0, 7680 * n));
    } else {
        assert(chunk_samples(s, n) =~= s.subrange(0, 0));
    }
}

/// A chunk is 20 ms of 48 kHz stereo in 32-bit samples. Whole chunks go out at
/// once and less than a chunk waits.
pub proof fn law_chunk_size(s: Seq<u8>)
    ensures
        CHUNK_BYTES == 48000int / 50 * 2 * 4,
        CHUNK_BYTES == 7680,
        chunk_rest(s).len() < 7680,
        7680 * chunk_messages(s).len() + chunk_rest(s).len() == s.len(),
{
}

/// Audio is captured from the device that was asked for, as raw 32-bit floats,
/// two channels at 48 kHz, into the standard output.
pub proof fn law_capture_command(device: Seq<char>)
    ensures
        laws::passes(capture_args(device), "-f"@, "pulse"@),
        laws::passes(capture_args(device), "-i"@, device),
        laws::passes(capture_args(device), "-f"@, "f32le"@),
        laws::passes(capture_args(device), "-ar"@, "48000"@),
        laws::passes(capture_args(device), "-ac"@, "2"@),
        capture_args(device).last() == "pipe:1"@,
{
    let a = capture_args(device);
    assert(a[3] == "-f"@ && a[4] == "pulse"@ && a[5] == "-i"@ && a[6] == device);
    assert(a[7] == "-f"@ && a[8] == "f32le"@ && a[9] == "-ar"@ && a[10] == "48000"@);
    assert(a[11] == "-ac"@ && a[12] == "2"@);
}

/// Each line of pactl's list with two words or more names a source, its second
/// word, and adds it at the end of the monitors if `.monitor` occurs in it, or
/// else at the end of the others.
pub proof fn law_pactl_row(ls: Seq<Seq<char>>, line: Seq<char>, monitors: bool)
    ensures
        ({
            let w = text::words(line);
            let before = pactl_sources(ls, monitors);
            let after = pactl_sources(ls.push(line), monitors);
            if w.len() >= 2 && (text::occurs(w[1], ".monitor"@) <==> monitors) {
                after == before.push(w[1])
            } else {
                after == before
            }
        }),
        pactl_sources(Seq::empty(), monitors).len() == 0,
{
    assert(ls.push(line).drop_last() =~= ls);
}

proof fn lemma_pactl_kind(ls: Seq<Seq<char>>, monitors: bool)
    ensures
        forall|i: int|
            0 <= i < pactl_sources(ls, monitors).len() ==> text::occurs(
                #[trigger] pactl_sources(ls, monitors)[i],
                ".monitor"@,
            ) == monitors,
    decreases ls.len(),
{
    if ls.len() > 0 {
        lemma_pactl_kind(ls.drop_last(), monitors);
        let before = pactl_sources(ls.drop_last(), monitors);
        assert forall|i: int| 0 <= i < pactl_sources(ls, monitors).len() implies text::occurs(
            #[trigger] pactl_sources(ls, monitors)[i],
            ".monitor"@,
        ) == monitors by {
            if i < before.len() {
                assert(pactl_sources(ls, monitors)[i] == before[i]);
            }
        }
    }
}

/// The sources that play back what the machine plays come first.
pub proof fn law_monitors_come_first(stdout: Seq<u8>, i: int, j: int)
    requires
        0 <= i < j < pactl_devices(stdout).len(),
        text::occurs(pactl_devices(stdout)[j], ".monitor"@),
    ensures
        text::occurs(pactl_devices(stdout)[i], ".monitor"@),
{
    let ls = text::lines(wire::text_of(stdout));
    lemma_pactl_kind(ls, true);
    lemma_pactl_kind(ls, false);
    let a = pactl_sources(ls, true);
    let b = pactl_sources(ls, false);
    if j < a.len() {
        assert(pactl_devices(stdout)[i] == a[i]);
    } else {
        assert(pactl_devices(stdout)[j] == b[j - a.len()]);
    }
}

proof fn lemma_without_leading(stars: Seq<char>, t: Seq<char>)
    requires
        forall|i: int| 0 <= i < stars.len() ==> #[trigger] stars[i] == '*',
        t.len() > 0 ==> t[0] != '*',
    ensures
        text::without_leading(stars + t, '*') == t,
    decreases stars.len(),
{
    if stars.len() > 0 {
        let rest = stars.drop_first();
        assert((stars + t)[0] == stars[0]);
        assert((stars + t).drop_first() =~= rest + t);
        assert forall|i: int| 0 <= i < rest.len() implies #[trigger] rest[i] == '*' by {
            assert(rest[i] == stars[i + 1]);
        }
        lemma_without_leading(rest, t);
    } else {
        assert(stars + t =~= t);
    }
}

/// A line of FFmpeg's list names a source: behind white space, asterisks and
/// white space, up to the bracket that opens its description, without the
/// white space around it.
pub proof fn law_listed_source(
    a: Seq<char>,
    stars: Seq<char>,
    b: Seq<char>,
    name: Seq<char>,
    c: Seq<char>,
    description: Seq<char>,
)
    requires
        text::blank(a),
        text::blank(b),
        text::blank(c),
        stars.len() > 0,
        forall|i: int| 0 <= i < stars.len() ==> #[trigger] stars[i] == '*',
        name.len() > 0,
        !text::is_space(name[0]),
        !text::is_space(name.last()),
        name[0] != '*',
        !name.contains('['),
        description.len() > 0,
        !text::is_space(description.last()),
    ensures
        listed_source(a + stars + b + name + c + seq!['['] + description) == name,
        listed_source(a + stars + b + name + c) == name,
        listed_source(a + name + c + seq!['['] + description) == name,
        listed_source(a + name + c) == name,
{
    let none = Seq::<char>::empty();
    text::law_white_space('*');
    text::law_white_space('[');
    assert(stars[0] == '*');
    let tail = seq!['['] + description;
    let part = name + c + tail;
    assert(part[0] == name[0]);
    assert(part.last() == description.last());
    let whole = stars + (b + part);
    assert(a + stars + b + name + c + seq!['['] + description =~= a + whole + none);
    assert(whole[0] == '*');
    assert(whole.last() == description.last());
    text::law_trimmed(a, whole, none);
    assert(b.len() > 0 ==> text::is_space(b[0]));
    assert((b + part)[0] == if b.len() > 0 {
        b[0]
    } else {
        name[0]
    });
    lemma_without_leading(stars, b + part);
    text::law_trimmed(b, part, none);
    assert(b + part + none =~= b + part);
    lemma_cut_at_bracket(name, c, description);
    // Without a description.
    let short = name + c;
    assert(short[0] == name[0]);
    let middle = stars + b + name;
    assert(a + stars + b + name + c =~= a + middle + c);
    assert(middle[0] == '*');
    assert(middle.last() == name.last());
    text::law_trimmed(a, middle, c);
    assert(middle =~= stars + (b + name));
    assert((b + name)[0] == if b.len() > 0 {
        b[0]
    } else {
        name[0]
    });
    lemma_without_leading(stars, b + name);
    text::law_trimmed(b, name, none);
    assert(b + name + none =~= b + name);
    text::lemma_find(name, '[', 0);
    if text::find(name, '[', 0) < name.len() {
        assert(name.contains('['));
    }
    // Without asterisks.
    assert(a + name + c + seq!['['] + description =~= a + part + none);
    text::law_trimmed(a, part, none);
    lemma_without_leading(none, part);
    assert(none + part =~= part);
    text::law_trimmed(none, part, none);
    assert(none + part + none =~= part);
    text::law_trimmed(a, name, c);
    lemma_without_leading(none, name);
    assert(none + name =~= name);
    text::law_trimmed(none, name, none);
    assert(none + name + none =~= name);
}

proof fn lemma_cut_at_bracket(name: Seq<char>, c: Seq<char>, description: Seq<char>)
    requires
        text::blank(c),
        name.len() > 0,
        !text::is_space(name[0]),
        !text::is_space(name.last()),
        !name.contains('['),
    ensures
        ({
            let part = name + c + (seq!['['] + description);
            let end = text::find(part, '[', 0);
            end < part.len() && text::trimmed(part.subrange(0, end)) == name
        }),
{
    text::law_white_space('[');
    let none = Seq::<char>::empty();
    let part = name + c + (seq!['['] + description);
    let n = (name.len() + c.len()) as int;
    text::lemma_find(part, '[', 0);
    assert(part[n] == '[');
    let end = text::find(part, '[', 0);
    if end < n {
        if end < name.len() {
            assert(part[end] == name[end]);
            assert(name.contains('['));
        } else {
            assert(part[end] == c[end - name.len()]);
            assert(text::is_space(c[end - name.len()]));
        }
    }
    assert(end == n);
    assert(part.subrange(0, n) =~= none + name + c);
    text::law_trimmed(none, name, c);
}

proof fn lemma_listed_push(ls: Seq<Seq<char>>, line: Seq<char>, in_list: bool)
    ensures
        listed_sources(ls.push(line), in_list) == listed_sources(ls, in_list) + if (in_list
            || exists|i: int| 0 <= i < ls.len() && is_list_title(#[trigger] ls[i]))
            && !is_list_title(line) && listed_source(line).len() > 0 {
            seq![listed_source(line)]
        } else {
            Seq::empty()
        },
    decreases ls.len(),
{
    let all = ls.push(line);
    if ls.len() == 0 {
        assert(all.drop_first() =~= Seq::<Seq<char>>::empty());
        assert(all[0] == line);
        assert(listed_sources(all.drop_first(), true) =~= Seq::<Seq<char>>::empty());
        assert(listed_sources(all.drop_first(), false) =~= Seq::<Seq<char>>::empty());
    } else {
        assert(all[0] == ls[0]);
        let rest = ls.drop_first();
        assert(all.drop_first() =~= rest.push(line));
        lemma_listed_push(rest, line, true);
        lemma_listed_push(rest, line, false);
        if exists|i: int| 0 <= i < ls.len() && is_list_title(#[trigger] ls[i]) {
            let i = choose|i: int| 0 <= i < ls.len() && is_list_title(#[trigger] ls[i]);
            if i > 0 {
                assert(rest[i - 1] == ls[i]);
            }
        }
        if exists|i: int| 0 <= i < rest.len() && is_list_title(#[trigger] rest[i]) {
            let i = choose|i: int| 0 <= i < rest.len() && is_list_title(#[trigger] rest[i]);
            assert(ls[i + 1] == rest[i]);
        }
    }
    assert(listed_sources(all, in_list) =~= listed_sources(ls, in_list) + if (in_list || exists|
        i: int,
    | 0 <= i < ls.len() && is_list_title(#[trigger] ls[i])) && !is_list_title(line)
        && listed_source(line).len() > 0 {
        seq![listed_source(line)]
    } else {
        Seq::empty()
    });
}

/// A line of FFmpeg's output adds a source to the list, at its end, if a title
/// stands above it, it is no title itself and it names one.
pub proof fn law_listed_row(ls: Seq<Seq<char>>, line: Seq<char>)
    ensures
        ({
            let title = |l: Seq<char>|
                text::starts(text::trimmed(l), "Auto-detected sources"@);
            let before = listed_sources(ls, false);
            let after = listed_sources(ls.push(line), false);
            if (exists|i: int| 0 <= i < ls.len() && title(#[trigger] ls[i])) && !title(line)
                && listed_source(line).len() > 0 {
                after == before.push(listed_source(line))
            } else {
                after == before
            }
        }),
        listed_sources(Seq::empty(), false).len() == 0,
{
    lemma_listed_push(ls, line, false);
    let before = listed_sources(ls, false);
    assert(before + Seq::<Seq<char>>::empty() =~= before);
    assert(before + seq![listed_source(line)] =~= before.push(listed_source(line)));
}

/// What pactl lists counts, if it succeeded and lists anything; else what
/// FFmpeg lists, if that was tried; else there are no devices.
pub proof fn law_device_order(stdout: Seq<u8>, ffmpeg: Option<Seq<u8>>)
    ensures
        pactl_devices(stdout).len() > 0 ==> audio_devices(Some((true, stdout)), ffmpeg)
            == pactl_devices(stdout),
        pactl_devices(stdout).len() == 0 ==> audio_devices(Some((true, stdout)), ffmpeg)
            == audio_devices(None, ffmpeg),
        audio_devices(Some((false, stdout)), ffmpeg) == audio_devices(None, ffmpeg),
        ffmpeg is Some ==> audio_devices(None, ffmpeg) == listed_sources(
            text::lines(wire::text_of(ffmpeg->0)),
            false,
        ),
        ffmpeg is None ==> audio_devices(None, ffmpeg).len() == 0,
{
}

} // verus!

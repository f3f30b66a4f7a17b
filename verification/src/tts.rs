//! Speaking a text: the address of a recording, where it is kept, and what to
//! do when there is none.

use crate::lang;
use crate::lang::Lang;
use crate::paths;
use crate::text;
use vstd::prelude::*;
use vstd::utf8::encode_utf8;

verus! {

/// How a text is spoken.
#[derive(Debug, Clone, Copy, PartialEq, Eq, Structural)]
pub enum Voice {
    Uk,
    Us,
    Zh,
}

/// A short name for a voice.
pub open spec fn tag_of(v: Voice) -> Seq<char> {
    match v {
        Voice::Uk => "uk"@,
        Voice::Us => "us"@,
        Voice::Zh => "zh"@,
    }
}

impl Voice {
    /// A short name for the voice.
    pub fn tag(self) -> (r: &'static str)
        ensures
            r@ == tag_of(self),
    {
        match self {
            Voice::Uk => "uk",
            Voice::Us => "us",
            Voice::Zh => "zh",
        }
    }
}

/// Whether speaking is switched off: by exactly `1`.
pub fn parse_tts_disable(v: Option<&str>) -> (r: bool)
    ensures
        r == (v matches Some(s) && s@ == "1"@),
{
    match v {
        Some(s) => text::same(s, "1"),
        None => false,
    }
}

// Addresses

/// The bytes that stand for themselves in an address.
pub open spec fn unreserved(b: u8) -> bool {
    ||| 0x41 <= b <= 0x5A
    ||| 0x61 <= b <= 0x7A
    ||| 0x30 <= b <= 0x39
    ||| b == 0x2D
    ||| b == 0x2E
    ||| b == 0x5F
    ||| b == 0x7E
}

/// The hexadecimal digit, in capitals, for a value below 16.
pub open spec fn upper_hex(n: int) -> char {
    if n < 10 {
        (48 + n) as char
    } else {
        (55 + n) as char
    }
}

/// The hexadecimal digit, in small letters, for a value below 16.
pub open spec fn lower_hex(n: int) -> char {
    if n < 10 {
        (48 + n) as char
    } else {
        (87 + n) as char
    }
}

/// A byte in an address: itself, or a percent sign and two digits.
pub open spec fn encoded_byte(b: u8) -> Seq<char> {
    if unreserved(b) {
        seq![b as char]
    } else {
        seq!['%', upper_hex(b as int / 16), upper_hex(b as int % 16)]
    }
}

/// Bytes in an address.
pub open spec fn encoded(bytes: Seq<u8>) -> Seq<char>
    decreases bytes.len(),
{
    if bytes.len() == 0 {
        Seq::empty()
    } else {
        encoded(bytes.drop_last()) + encoded_byte(bytes.last())
    }
}

/// A text in an address: its UTF-8 bytes.
pub open spec fn url_encoded(s: Seq<char>) -> Seq<char> {
    encoded(encode_utf8(s))
}

fn upper_hex_digit(n: u8) -> (r: char)
    requires
        n < 16,
    ensures
        r == upper_hex(n as int),
{
    if n < 10 {
        (48 + n) as char
    } else {
        (55 + n) as char
    }
}

fn lower_hex_digit(n: u8) -> (r: char)
    requires
        n < 16,
    ensures
        r == lower_hex(n as int),
{
    if n < 10 {
        (48 + n) as char
    } else {
        (87 + n) as char
    }
}

/// A text in an address: everything but letters, digits, `-`, `.`, `_` and `~`
/// as percent signs and digits.
pub fn urlencode(s: &str) -> (r: String)
    ensures
        r@ == url_encoded(s@),
{
    let bytes = s.as_bytes();
    let mut r = String::new();
    let mut i: usize = 0;
    assert(r@ =~= encoded(bytes@.take(0)));
    while i < bytes.len()
        invariant
            i <= bytes@.len(),
            r@ == encoded(bytes@.take(i as int)),
        decreases bytes@.len() - i,
    {
        assert(bytes@.take(i + 1).drop_last() =~= bytes@.take(i as int));
        let b: u8 = bytes[i];
        let ghost before = r@;
        if (0x41 <= b && b <= 0x5A) || (0x61 <= b && b <= 0x7A) || (0x30 <= b && b <= 0x39) || b
            == 0x2D || b == 0x2E || b == 0x5F || b == 0x7E {
            r.push(b as char);
        } else {
            r.push('%');
            r.push(upper_hex_digit(b / 16));
            r.push(upper_hex_digit(b % 16));
        }
        assert(r@ =~= before + encoded_byte(b));
        i += 1;
    }
    assert(bytes@.take(i as int) =~= bytes@);
    r
}

/// The address of the recording of a text.
pub open spec fn voice_url(s: Seq<char>, v: Voice) -> Seq<char> {
    "https://dict.youdao.com/dictvoice?audio="@ + url_encoded(s) + (match v {
        Voice::Uk => "&type=1"@,
        Voice::Us => "&type=2"@,
        Voice::Zh => "&le=zh"@,
    })
}

/// The address of the recording of a text.
pub fn youdao_voice_url(text: &str, voice: Voice) -> (r: String)
    ensures
        r@ == voice_url(text@, voice),
{
    let mut r = text::cat("https://dict.youdao.com/dictvoice?audio=", &urlencode(text));
    match voice {
        Voice::Uk => r.append("&type=1"),
        Voice::Us => r.append("&type=2"),
        Voice::Zh => r.append("&le=zh"),
    }
    r
}

/// Whether `c` may stand in an encoded text.
pub open spec fn safe_in_url(c: char) -> bool {
    c == '%' || ((c as int) < 128 && unreserved(c as u8))
}

/// An encoded text holds nothing but unreserved characters and percent signs.
pub proof fn law_encoded_text_is_safe(s: Seq<char>)
    ensures
        forall|i: int| 0 <= i < url_encoded(s).len() ==> safe_in_url(#[trigger] url_encoded(s)[i]),
{
    lemma_encoded_is_safe(encode_utf8(s));
}

proof fn lemma_encoded_is_safe(bytes: Seq<u8>)
    ensures
        forall|i: int| 0 <= i < encoded(bytes).len() ==> safe_in_url(#[trigger] encoded(bytes)[i]),
    decreases bytes.len(),
{
    if bytes.len() > 0 {
        lemma_encoded_is_safe(bytes.drop_last());
        let a = encoded(bytes.drop_last());
        let b = bytes.last();
        let e = encoded_byte(b);
        assert(0 <= b as int / 16 < 16 && 0 <= b as int % 16 < 16);
        assert forall|i: int| 0 <= i < encoded(bytes).len() implies safe_in_url(
            #[trigger] encoded(bytes)[i],
        ) by {
            if i < a.len() {
                assert(encoded(bytes)[i] == a[i]);
            } else {
                assert(encoded(bytes)[i] == e[i - a.len()]);
            }
        }
    }
}

/// The value of a hexadecimal digit in capitals.
pub open spec fn upper_hex_value(c: char) -> int {
    if c <= '9' {
        c as int - 48
    } else {
        c as int - 55
    }
}

/// The bytes that an encoded text stands for: a percent sign and two digits
/// stand for one byte, every other character for itself.
pub open spec fn url_decoded(s: Seq<char>) -> Seq<u8>
    decreases s.len(),
{
    if s.len() == 0 {
        Seq::empty()
    } else if s[0] == '%' && s.len() >= 3 {
        seq![(upper_hex_value(s[1]) * 16 + upper_hex_value(s[2])) as u8] + url_decoded(s.skip(3))
    } else {
        seq![s[0] as u8] + url_decoded(s.skip(1))
    }
}

proof fn lemma_encoded_front(bytes: Seq<u8>)
    requires
        bytes.len() > 0,
    ensures
        encoded(bytes) == encoded_byte(bytes[0]) + encoded(bytes.skip(1)),
    decreases bytes.len(),
{
    reveal_with_fuel(encoded, 2);
    if bytes.len() == 1 {
        assert(bytes.drop_last() =~= Seq::<u8>::empty());
        assert(bytes.skip(1) =~= Seq::<u8>::empty());
        assert(Seq::<char>::empty() + encoded_byte(bytes[0]) =~= encoded_byte(bytes[0])
            + Seq::<char>::empty());
    } else {
        lemma_encoded_front(bytes.drop_last());
        let rest = bytes.skip(1);
        assert(bytes.drop_last().skip(1) =~= rest.drop_last());
        assert((encoded_byte(bytes[0]) + encoded(rest.drop_last())) + encoded_byte(bytes.last())
            =~= encoded_byte(bytes[0]) + (encoded(rest.drop_last()) + encoded_byte(rest.last())));
    }
}

proof fn lemma_decoded(bytes: Seq<u8>)
    ensures
        url_decoded(encoded(bytes)) == bytes,
    decreases bytes.len(),
{
    if bytes.len() > 0 {
        lemma_encoded_front(bytes);
        let b = bytes[0];
        let rest = bytes.skip(1);
        let s = encoded(bytes);
        lemma_decoded(rest);
        let (high, low) = (b as int / 16, b as int % 16);
        assert(0 <= high < 16 && 0 <= low < 16 && high * 16 + low == b);
        if unreserved(b) {
            assert(s[0] == b as char);
            assert(s.skip(1) =~= encoded(rest));
        } else {
            assert(s[0] == '%' && s[1] == upper_hex(high) && s[2] == upper_hex(low));
            assert(upper_hex_value(s[1]) == high && upper_hex_value(s[2]) == low);
            assert(s.skip(3) =~= encoded(rest));
        }
        assert(seq![b] + rest =~= bytes);
    } else {
        assert(url_decoded(encoded(bytes)) =~= bytes);
    }
}

/// An encoded text stands for the bytes of the text.
pub proof fn law_encoded_text_decodes(s: Seq<char>)
    ensures
        url_decoded(url_encoded(s)) == encode_utf8(s),
{
    lemma_decoded(encode_utf8(s));
}

// Recordings on disk

/// The SHA-1 digest of `data`.
pub uninterp spec fn sha1_of(data: Seq<u8>) -> Seq<u8>;

/// `Digest::digest` of `sha1::Sha1`: the SHA-1 digest of `data`, twenty bytes
/// that depend on `data` alone.
#[verifier::external_body]
fn sha1_digest(data: &[u8]) -> (r: Vec<u8>)
    ensures
        r@ == sha1_of(data@),
        r@.len() == 20,
{
    <sha1::Sha1 as sha1::Digest>::digest(data).to_vec()
}

/// What the name of a recording is made from: its voice and its text.
pub open spec fn cache_key(s: Seq<char>, v: Voice) -> Seq<u8> {
    encode_utf8(tag_of(v)) + encode_utf8("|"@) + encode_utf8(s)
}

/// Bytes as hexadecimal digits.
pub open spec fn hex(bytes: Seq<u8>) -> Seq<char>
    decreases bytes.len(),
{
    if bytes.len() == 0 {
        Seq::empty()
    } else {
        hex(bytes.drop_last()).push(lower_hex(bytes.last() as int / 16)).push(
            lower_hex(bytes.last() as int % 16),
        )
    }
}

/// Where the recording of a text is kept.
pub open spec fn recording(dir: Seq<char>, s: Seq<char>, v: Voice) -> Seq<char> {
    paths::below(dir, hex(sha1_of(cache_key(s, v))) + ".mp3"@)
}

fn push_bytes(out: &mut Vec<u8>, bytes: &[u8])
    ensures
        final(out)@ == old(out)@ + bytes@,
{
    let ghost start = out@;
    let mut i: usize = 0;
    assert(start + bytes@.take(0) =~= start);
    while i < bytes.len()
        invariant
            i <= bytes@.len(),
            out@ == start + bytes@.take(i as int),
        decreases bytes@.len() - i,
    {
        out.push(bytes[i]);
        assert(out@ =~= start + bytes@.take(i + 1));
        i += 1;
    }
    assert(bytes@.take(i as int) =~= bytes@);
}

fn hex_of(bytes: &Vec<u8>) -> (r: String)
    ensures
        r@ == hex(bytes@),
{
    let mut r = String::new();
    let mut i: usize = 0;
    assert(r@ =~= hex(bytes@.take(0)));
    while i < bytes.len()
        invariant
            i <= bytes@.len(),
            r@ == hex(bytes@.take(i as int)),
        decreases bytes@.len() - i,
    {
        assert(bytes@.take(i + 1).drop_last() =~= bytes@.take(i as int));
        let b: u8 = bytes[i];
        r.push(lower_hex_digit(b / 16));
        r.push(lower_hex_digit(b % 16));
        i += 1;
    }
    assert(bytes@.take(i as int) =~= bytes@);
    r
}

/// Where the recording of a text is kept, by the digest of its key.
pub fn recording_name(digest: &Vec<u8>) -> (r: String)
    ensures
        r@ == hex(digest@) + ".mp3"@,
{
    text::cat(&hex_of(digest), ".mp3")
}

/// Where the recording of a text is kept.
pub fn cache_path(cache_dir: &str, text: &str, voice: Voice) -> (r: String)
    ensures
        r@ == recording(cache_dir@, text@, voice),
{
    let mut key: Vec<u8> = Vec::new();
    push_bytes(&mut key, voice.tag().as_bytes());
    push_bytes(&mut key, "|".as_bytes());
    push_bytes(&mut key, text.as_bytes());
    assert(key@ =~= cache_key(text@, voice));
    let digest = sha1_digest(key.as_slice());
    paths::join(cache_dir, &recording_name(&digest))
}

/// Different voices or texts never share a key.
pub proof fn law_cache_key_is_unambiguous(a: Seq<char>, v: Voice, b: Seq<char>, w: Voice)
    requires
        cache_key(a, v) == cache_key(b, w),
    ensures
        a == b,
        v == w,
{
    lemma_tag_bytes(v);
    lemma_tag_bytes(w);
    lemma_bar_bytes();
    let x = cache_key(a, v);
    let y = cache_key(b, w);
    assert(x[0] == encode_utf8(tag_of(v))[0] && x[1] == encode_utf8(tag_of(v))[1]);
    assert(y[0] == encode_utf8(tag_of(w))[0] && y[1] == encode_utf8(tag_of(w))[1]);
    assert(x.skip(3) =~= encode_utf8(a));
    assert(y.skip(3) =~= encode_utf8(b));
    vstd::utf8::encode_utf8_decode_utf8(a);
    vstd::utf8::encode_utf8_decode_utf8(b);
}

proof fn lemma_bar_bytes()
    ensures
        encode_utf8("|"@) == seq![0x7Cu8],
{
    reveal_strlit("|");
    vstd::utf8::is_ascii_chars_encode_utf8("|"@);
    assert(encode_utf8("|"@) =~= seq![0x7Cu8]);
}

proof fn lemma_tag_bytes(v: Voice)
    ensures
        encode_utf8(tag_of(v)) == (match v {
            Voice::Uk => seq![0x75u8, 0x6Bu8],
            Voice::Us => seq![0x75u8, 0x73u8],
            Voice::Zh => seq![0x7Au8, 0x68u8],
        }),
{
    reveal_strlit("uk");
    reveal_strlit("us");
    reveal_strlit("zh");
    vstd::utf8::is_ascii_chars_encode_utf8(tag_of(v));
    match v {
        Voice::Uk => {
            assert(encode_utf8("uk"@) =~= seq![0x75u8, 0x6Bu8]);
        },
        Voice::Us => {
            assert(encode_utf8("us"@) =~= seq![0x75u8, 0x73u8]);
        },
        Voice::Zh => {
            assert(encode_utf8("zh"@) =~= seq![0x7Au8, 0x68u8]);
        },
    }
}

// Speaking

/// The voice for a language: English is spoken the British way.
pub open spec fn voice_of(l: Lang) -> Voice {
    match l {
        Lang::En => Voice::Uk,
        Lang::Zh => Voice::Zh,
    }
}

/// The voice that a synthesiser takes for a text.
pub fn synthesiser_voice(text: &str) -> (r: &'static str)
    ensures
        r@ == (match lang::lang_of(text@) {
            Lang::Zh => "zh"@,
            Lang::En => "en"@,
        }),
{
    match lang::detect(text) {
        Lang::Zh => "zh",
        Lang::En => "en",
    }
}

/// What is to be done next to speak a text.
#[derive(Debug, Clone, PartialEq)]
pub enum SpeechStep {
    /// Read the recording at this path.
    ReadCache(String),
    /// Download the recording from this address.
    Download(String),
    /// Keep what was downloaded at this path; a failure changes nothing.
    Keep(String),
    /// Have the player at this position play.
    Play(usize),
    /// It was spoken.
    Done,
    /// No player could play, the last one for this reason.
    AllFailed(String),
    /// There is no player.
    NoPlayer,
    /// Wait for what was asked for.
    Wait,
}

/// What a [`SpeechStep`] says.
pub enum SpeechModel {
    ReadCache(Seq<char>),
    Download(Seq<char>),
    Keep(Seq<char>),
    Play(nat),
    Done,
    AllFailed(Seq<char>),
    NoPlayer,
    Wait,
}

impl DeepView for SpeechStep {
    type V = SpeechModel;

    open spec fn deep_view(&self) -> SpeechModel {
        match self {
            SpeechStep::ReadCache(p) => SpeechModel::ReadCache(p@),
            SpeechStep::Download(u) => SpeechModel::Download(u@),
            SpeechStep::Keep(p) => SpeechModel::Keep(p@),
            SpeechStep::Play(i) => SpeechModel::Play(*i as nat),
            SpeechStep::Done => SpeechModel::Done,
            SpeechStep::AllFailed(e) => SpeechModel::AllFailed(e@),
            SpeechStep::NoPlayer => SpeechModel::NoPlayer,
            SpeechStep::Wait => SpeechModel::Wait,
        }
    }
}

/// What happened.
#[derive(Debug)]
pub enum SpeechInput {
    /// The recording, if it could be read.
    Cached(Option<Vec<u8>>),
    /// The recording, if it could be downloaded.
    Downloaded(Option<Vec<u8>>),
    /// Keeping was tried.
    Kept,
    /// A player played, or failed for a reason.
    Played(Option<String>),
}

/// Where a speech stands.
#[derive(Debug, Clone, Copy, PartialEq, Eq, Structural)]
pub enum SpeechPhase {
    Reading,
    Downloading,
    Keeping,
    Playing(usize),
    Over,
}

/// One text that is being spoken.
pub struct Speech {
    text: String,
    voice: Voice,
    path: String,
    players: usize,
    /// What the players get: a recording, or the text itself as bytes.
    audio: Vec<u8>,
    phase: SpeechPhase,
}

/// What a [`Speech`] says.
#[verifier::ext_equal]
pub struct SpokenModel {
    pub text: Seq<char>,
    pub voice: Voice,
    pub path: Seq<char>,
    pub players: nat,
    pub audio: Seq<u8>,
    pub phase: SpeechPhase,
}

impl View for Speech {
    type V = SpokenModel;

    closed spec fn view(&self) -> SpokenModel {
        SpokenModel {
            text: self.text@,
            voice: self.voice,
            path: self.path@,
            players: self.players as nat,
            audio: self.audio@,
            phase: self.phase,
        }
    }
}

/// Playing `audio` begins with the first player.
pub open spec fn begin_playing(m: SpokenModel, audio: Seq<u8>) -> (SpokenModel, SpeechModel) {
    if m.players == 0 {
        (SpokenModel { audio, phase: SpeechPhase::Over, ..m }, SpeechModel::NoPlayer)
    } else {
        (SpokenModel { audio, phase: SpeechPhase::Playing(0), ..m }, SpeechModel::Play(0))
    }
}

/// How a speech begins: not at all where it is switched off.
pub open spec fn speech_start(
    disabled: bool,
    dir: Seq<char>,
    s: Seq<char>,
    l: Lang,
    players: nat,
) -> (SpokenModel, SpeechModel) {
    let voice = voice_of(l);
    let path = recording(dir, s, voice);
    let m = SpokenModel {
        text: s,
        voice,
        path,
        players,
        audio: Seq::empty(),
        phase: SpeechPhase::Over,
    };
    if disabled {
        (m, SpeechModel::Done)
    } else {
        (SpokenModel { phase: SpeechPhase::Reading, ..m }, SpeechModel::ReadCache(path))
    }
}

/// How it goes on. A recording that was kept and is not empty is played;
/// otherwise one is downloaded, kept and played; failing that, the players get
/// the text itself. Players are tried in order until one plays. What comes out
/// of place changes nothing.
pub open spec fn speech_next(m: SpokenModel, input: SpeechInput) -> (SpokenModel, SpeechModel) {
    match (m.phase, input) {
        (SpeechPhase::Reading, SpeechInput::Cached(found)) => if found is Some
            && found->0@.len() > 0 {
            begin_playing(m, found->0@)
        } else {
            (
                SpokenModel { phase: SpeechPhase::Downloading, ..m },
                SpeechModel::Download(voice_url(m.text, m.voice)),
            )
        },
        (SpeechPhase::Downloading, SpeechInput::Downloaded(found)) => match found {
            Some(bytes) => (
                SpokenModel { audio: bytes@, phase: SpeechPhase::Keeping, ..m },
                SpeechModel::Keep(m.path),
            ),
            None => begin_playing(m, encode_utf8(m.text)),
        },
        (SpeechPhase::Keeping, SpeechInput::Kept) => begin_playing(m, m.audio),
        (SpeechPhase::Playing(i), SpeechInput::Played(failure)) => match failure {
            None => (SpokenModel { phase: SpeechPhase::Over, ..m }, SpeechModel::Done),
            Some(why) => if i + 1 < m.players {
                (
                    SpokenModel { phase: SpeechPhase::Playing((i + 1) as usize), ..m },
                    SpeechModel::Play((i + 1) as nat),
                )
            } else {
                (SpokenModel { phase: SpeechPhase::Over, ..m }, SpeechModel::AllFailed(why@))
            },
        },
        _ => (m, SpeechModel::Wait),
    }
}

impl Speech {
    /// How a speech begins, with so many players.
    pub fn start(
        disable: Option<&str>,
        cache_dir: &str,
        text: &str,
        lang: Lang,
        players: usize,
    ) -> (r: (Speech, SpeechStep))
        ensures
            (r.0@, r.1.deep_view()) == speech_start(
                disable matches Some(s) && s@ == "1"@,
                cache_dir@,
                text@,
                lang,
                players as nat,
            ),
    {
        let voice = match lang {
            Lang::En => Voice::Uk,
            Lang::Zh => Voice::Zh,
        };
        let path = cache_path(cache_dir, text, voice);
        let audio: Vec<u8> = Vec::new();
        assert(audio@ =~= Seq::<u8>::empty());
        if parse_tts_disable(disable) {
            (
                Speech {
                    text: text::copy(text),
                    voice,
                    path,
                    players,
                    audio,
                    phase: SpeechPhase::Over,
                },
                SpeechStep::Done,
            )
        } else {
            let step = SpeechStep::ReadCache(text::copy(&path));
            (
                Speech {
                    text: text::copy(text),
                    voice,
                    path,
                    players,
                    audio,
                    phase: SpeechPhase::Reading,
                },
                step,
            )
        }
    }

    /// What the players get.
    pub fn audio(&self) -> (r: &Vec<u8>)
        ensures
            r@ == self@.audio,
    {
        &self.audio
    }

    fn play(&mut self, audio: Vec<u8>) -> (r: SpeechStep)
        ensures
            (final(self)@, r.deep_view()) == begin_playing(old(self)@, audio@),
    {
        self.audio = audio;
        if self.players == 0 {
            self.phase = SpeechPhase::Over;
            SpeechStep::NoPlayer
        } else {
            self.phase = SpeechPhase::Playing(0);
            SpeechStep::Play(0)
        }
    }

    /// How it goes on.
    pub fn next(&mut self, input: SpeechInput) -> (r: SpeechStep)
        ensures
            (final(self)@, r.deep_view()) == speech_next(old(self)@, input),
    {
        match (self.phase, input) {
            (SpeechPhase::Reading, SpeechInput::Cached(found)) => {
                match found {
                    Some(bytes) => if bytes.len() > 0 {
                        return self.play(bytes);
                    },
                    None => {},
                }
                self.phase = SpeechPhase::Downloading;
                SpeechStep::Download(youdao_voice_url(&self.text, self.voice))
            },
            (SpeechPhase::Downloading, SpeechInput::Downloaded(found)) => match found {
                Some(bytes) => {
                    self.audio = bytes;
                    self.phase = SpeechPhase::Keeping;
                    SpeechStep::Keep(text::copy(&self.path))
                },
                None => {
                    let mut spoken: Vec<u8> = Vec::new();
                    push_bytes(&mut spoken, self.text.as_str().as_bytes());
                    assert(spoken@ =~= encode_utf8(self.text@));
                    self.play(spoken)
                },
            },
            (SpeechPhase::Keeping, SpeechInput::Kept) => {
                let mut audio: Vec<u8> = Vec::new();
                std::mem::swap(&mut audio, &mut self.audio);
                self.play(audio)
            },
            (SpeechPhase::Playing(i), SpeechInput::Played(failure)) => match failure {
                None => {
                    self.phase = SpeechPhase::Over;
                    SpeechStep::Done
                },
                Some(why) => if self.players > 0 && i < self.players - 1 {
                    self.phase = SpeechPhase::Playing(i + 1);
                    SpeechStep::Play(i + 1)
                } else {
                    self.phase = SpeechPhase::Over;
                    SpeechStep::AllFailed(why)
                },
            },
            _ => SpeechStep::Wait,
        }
    }
}

/// Where speaking is switched off, nothing is read, downloaded or played.
pub proof fn law_switched_off_is_silent(dir: Seq<char>, s: Seq<char>, l: Lang, players: nat)
    ensures
        speech_start(true, dir, s, l, players).1 == SpeechModel::Done,
{
}

/// Without a recording and without a download, the players get the bytes of the
/// text.
pub proof fn law_failed_download_speaks_the_text(m: SpokenModel)
    requires
        m.phase == SpeechPhase::Downloading,
        m.players > 0,
    ensures
        speech_next(m, SpeechInput::Downloaded(None)).1 == SpeechModel::Play(0),
        speech_next(m, SpeechInput::Downloaded(None)).0.audio == encode_utf8(m.text),
{
}

/// A kept recording without any byte counts as none: the download is tried.
pub proof fn law_empty_recording_is_no_recording(m: SpokenModel, found: Option<Vec<u8>>)
    requires
        m.phase == SpeechPhase::Reading,
        found is None || found->0@.len() == 0,
    ensures
        speech_next(m, SpeechInput::Cached(found)).1 == SpeechModel::Download(
            voice_url(m.text, m.voice),
        ),
{
}

/// Letters, digits, `-`, `.`, `_` and `~` stand for themselves in an address;
/// every other byte is a percent sign and its two hexadecimal digits in capitals.
/// A text is encoded byte by byte.
pub proof fn law_encoded_bytes(b: u8, s: Seq<u8>, t: Seq<u8>)
    ensures
        ({
            let c = b as char;
            let plain = 'A' <= c <= 'Z' || 'a' <= c <= 'z' || '0' <= c <= '9' || c == '-' || c
                == '.' || c == '_' || c == '~';
            &&& plain ==> encoded(seq![b]) == seq![c]
            &&& !plain ==> encoded(seq![b]) == seq![
                '%',
                "0123456789ABCDEF"@[b as int / 16],
                "0123456789ABCDEF"@[b as int % 16],
            ]
        }),
        encoded(s + t) == encoded(s) + encoded(t),
        encoded(Seq::empty()).len() == 0,
{
    reveal_strlit("0123456789ABCDEF");
    reveal_with_fuel(encoded, 2);
    assert(seq![b].drop_last() =~= Seq::<u8>::empty());
    assert(encoded(seq![b]) =~= encoded_byte(b));
    lemma_digits(b as int / 16);
    lemma_digits(b as int % 16);
    lemma_encoded_cat(s, t);
}

proof fn lemma_digits(n: int)
    requires
        0 <= n < 16,
    ensures
        upper_hex(n) == "0123456789ABCDEF"@[n],
        lower_hex(n) == "0123456789abcdef"@[n],
{
    reveal_strlit("0123456789ABCDEF");
    reveal_strlit("0123456789abcdef");
}

proof fn lemma_encoded_cat(s: Seq<u8>, t: Seq<u8>)
    ensures
        encoded(s + t) == encoded(s) + encoded(t),
    decreases t.len(),
{
    if t.len() == 0 {
        assert(s + t =~= s);
        assert(encoded(s) + encoded(t) =~= encoded(s));
    } else {
        lemma_encoded_cat(s, t.drop_last());
        assert((s + t).drop_last() =~= s + t.drop_last());
        assert(encoded(s + t) =~= encoded(s) + encoded(t));
    }
}

/// A recording is asked for by the text and its voice: British and American
/// English by their types, Chinese by its language. English is spoken the British
/// way, and a synthesiser is told the language of the text.
pub proof fn law_voices(s: Seq<char>, t: &str, v: &'static str)
    requires
        call_ensures(synthesiser_voice, (t,), v),
    ensures
        voice_url(s, Voice::Uk) == "https://dict.youdao.com/dictvoice?audio="@ + encoded(
            encode_utf8(s),
        ) + "&type=1"@,
        voice_url(s, Voice::Us) == "https://dict.youdao.com/dictvoice?audio="@ + encoded(
            encode_utf8(s),
        ) + "&type=2"@,
        voice_url(s, Voice::Zh) == "https://dict.youdao.com/dictvoice?audio="@ + encoded(
            encode_utf8(s),
        ) + "&le=zh"@,
        voice_of(Lang::En) == Voice::Uk,
        voice_of(Lang::Zh) == Voice::Zh,
        lang::lang_of(t@) == Lang::Zh ==> v@ == "zh"@,
        lang::lang_of(t@) == Lang::En ==> v@ == "en"@,
{
}

/// Speaking is switched off by `1` and by nothing else.
pub proof fn law_switch(v: Option<&str>, off: bool)
    requires
        call_ensures(parse_tts_disable, (v,), off),
    ensures
        v is None ==> !off,
        v is Some && v->0@ == seq!['1'] ==> off,
        v is Some && v->0@ != seq!['1'] ==> !off,
{
    reveal_strlit("1");
    assert("1"@ =~= seq!['1']);
}

/// A recording is kept in a file named by the digest of the short name of its
/// voice, a bar and its text, as hexadecimal digits in small letters.
pub proof fn law_recording(dir: Seq<char>, s: Seq<char>, bytes: Seq<u8>, k: int)
    requires
        0 <= k < bytes.len(),
    ensures
        cache_key(s, Voice::Uk) == seq![0x75u8, 0x6Bu8, 0x7Cu8] + encode_utf8(s),
        cache_key(s, Voice::Us) == seq![0x75u8, 0x73u8, 0x7Cu8] + encode_utf8(s),
        cache_key(s, Voice::Zh) == seq![0x7Au8, 0x68u8, 0x7Cu8] + encode_utf8(s),
        dir.len() > 0 && dir.last() != '/' ==> recording(dir, s, Voice::Zh) == dir + seq!['/']
            + hex(sha1_of(seq![0x7Au8, 0x68u8, 0x7Cu8] + encode_utf8(s))) + ".mp3"@,
        hex(bytes).len() == 2 * bytes.len(),
        hex(bytes)[2 * k] == "0123456789abcdef"@[bytes[k] as int / 16],
        hex(bytes)[2 * k + 1] == "0123456789abcdef"@[bytes[k] as int % 16],
{
    lemma_tag_bytes(Voice::Uk);
    lemma_tag_bytes(Voice::Us);
    lemma_tag_bytes(Voice::Zh);
    lemma_bar_bytes();
    assert(cache_key(s, Voice::Uk) =~= seq![0x75u8, 0x6Bu8, 0x7Cu8] + encode_utf8(s));
    assert(cache_key(s, Voice::Us) =~= seq![0x75u8, 0x73u8, 0x7Cu8] + encode_utf8(s));
    assert(cache_key(s, Voice::Zh) =~= seq![0x7Au8, 0x68u8, 0x7Cu8] + encode_utf8(s));
    let name = hex(sha1_of(cache_key(s, Voice::Zh)));
    paths::law_below(dir, name + ".mp3"@);
    assert(dir + seq!['/'] + (name + ".mp3"@) =~= dir + seq!['/'] + name + ".mp3"@);
    lemma_hex(bytes, k);
}

proof fn lemma_hex(bytes: Seq<u8>, k: int)
    requires
        0 <= k < bytes.len(),
    ensures
        hex(bytes).len() == 2 * bytes.len(),
        hex(bytes)[2 * k] == "0123456789abcdef"@[bytes[k] as int / 16],
        hex(bytes)[2 * k + 1] == "0123456789abcdef"@[bytes[k] as int % 16],
    decreases bytes.len(),
{
    let init = bytes.drop_last();
    if init.len() > 0 {
        lemma_hex(
            init,
            if k < init.len() {
                k
            } else {
                0
            },
        );
    } else {
        assert(hex(init).len() == 0);
    }
    lemma_nibbles(bytes[k]);
    if k < init.len() {
        assert(init[k] == bytes[k]);
    }
}

proof fn lemma_nibbles(b: u8)
    ensures
        lower_hex(b as int / 16) == "0123456789abcdef"@[b as int / 16],
        lower_hex(b as int % 16) == "0123456789abcdef"@[b as int % 16],
{
    lemma_digits(b as int / 16);
    lemma_digits(b as int % 16);
}

/// A recording that is there is played. Otherwise it is downloaded from its
/// address, kept where it was looked for, and played. A player that fails is
/// followed by the next one, and the last one's reason is reported; a player that
/// plays ends it. Without players nothing is played.
pub proof fn law_speech(m: SpokenModel, bytes: Vec<u8>, why: String, i: usize)
    requires
        bytes@.len() > 0,
    ensures
        ({
            let reading = SpokenModel { phase: SpeechPhase::Reading, ..m };
            let (p, step) = speech_next(reading, SpeechInput::Cached(Some(bytes)));
            &&& m.players > 0 ==> step == SpeechModel::Play(0) && p.audio == bytes@ && p.phase
                == SpeechPhase::Playing(0)
            &&& m.players == 0 ==> step == SpeechModel::NoPlayer
        }),
        ({
            let loading = SpokenModel { phase: SpeechPhase::Downloading, ..m };
            let (k, keep) = speech_next(loading, SpeechInput::Downloaded(Some(bytes)));
            let (p, step) = speech_next(k, SpeechInput::Kept);
            &&& keep == SpeechModel::Keep(m.path)
            &&& m.players > 0 ==> step == SpeechModel::Play(0) && p.audio == bytes@
            &&& m.players == 0 ==> step == SpeechModel::NoPlayer
        }),
        ({
            let playing = SpokenModel { phase: SpeechPhase::Playing(i), ..m };
            &&& speech_next(playing, SpeechInput::Played(None)).1 == SpeechModel::Done
            &&& i + 1 < m.players && i < usize::MAX ==> {
                let (p, step) = speech_next(playing, SpeechInput::Played(Some(why)));
                step == SpeechModel::Play((i + 1) as nat) && p.phase == SpeechPhase::Playing(
                    (i + 1) as usize,
                ) && p.audio == m.audio
            }
            &&& i + 1 >= m.players ==> speech_next(playing, SpeechInput::Played(Some(why))).1
                == SpeechModel::AllFailed(why@)
        }),
        forall|dir: Seq<char>, s: Seq<char>, l: Lang, n: nat|
            ({
                let (b, step) = #[trigger] speech_start(false, dir, s, l, n);
                b.text == s && b.players == n && step == SpeechModel::ReadCache(b.path) && b.path
                    == recording(dir, s, b.voice) && b.voice == voice_of(l) && b.phase
                    == SpeechPhase::Reading
            }),
{
}

} // verus!

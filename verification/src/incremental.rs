//! Transcription while recording: the audio is cut into 60-second cores,
//! each sent with one second of context on either side; the parts are joined
//! at stop, and any doubt about a join falls back to the whole audio.
use vstd::prelude::*;
use crate::storage::Rule;
use crate::text::{
    chars_eq, chars_of, contains, contains_chars, join, join_strings, occurs_at, starts_with,
    starts_with_chars, string_of, trim, trim_chars,
};

verus! {

/// Seconds of audio that each part owns.
pub const SECONDS: u64 = 60;

/// Seconds of context sent on either side of a part.
pub const CONTEXT: u64 = 1;

/// Sample counts are below this bound: a recording holds at most
/// `u64::MAX` bytes of 16-bit samples.
pub const MAX_SAMPLES: u64 = 0x8000_0000_0000_0000;

/// One part of a recording, in samples: the part owns `start..end` and is
/// sent as `from..to`, which adds the context around it.
#[derive(Clone, Copy, Debug, PartialEq, Eq, Structural)]
pub struct Window {
    pub start: u64,
    pub end: u64,
    pub from: u64,
    pub to: u64,
}

/// Part `index` of a recording of `samples` samples at `rate` samples per
/// second. While recording (`finalizing` false) a part exists only once its
/// whole core and its right context have been recorded; at stop, every part
/// whose core starts before the end exists, the last one cut short.
pub open spec fn window_spec(index: u64, samples: u64, rate: u32, finalizing: bool) -> Option<Window> {
    let span = SECONDS * rate;
    let pad = CONTEXT * rate;
    let start = index * span;
    let end = start + span;
    if rate == 0 || start > u64::MAX || start >= samples || end > u64::MAX {
        None
    } else if !finalizing && samples < end + pad {
        None
    } else {
        Some(
            Window {
                start: start as u64,
                end: (if end < samples { end } else { samples as int }) as u64,
                from: (if start >= pad { start - pad } else { 0 }) as u64,
                to: (if end + pad < samples { end + pad } else { samples as int }) as u64,
            },
        )
    }
}

/// Whether part `index` can be computed in 64 bits: every part that exists
/// has its core and right context end below `u64::MAX`. Every recording of
/// fewer than `MAX_SAMPLES` samples qualifies (`lemma_window_computable`).
pub open spec fn window_computable(index: u64, samples: u64, rate: u32) -> bool {
    let start = index * (SECONDS * rate);
    ||| rate == 0
    ||| start >= samples
    ||| start + SECONDS * rate > u64::MAX
    ||| start + (SECONDS + CONTEXT) * rate <= u64::MAX
}

pub proof fn lemma_window_computable(index: u64, samples: u64, rate: u32)
    requires
        samples < MAX_SAMPLES,
    ensures
        window_computable(index, samples, rate),
{
}

/// Part `index` of a recording, as `window_spec` describes it.
pub fn window(index: u64, samples: u64, rate: u32, finalizing: bool) -> (w: Option<Window>)
    requires
        window_computable(index, samples, rate),
    ensures
        w == window_spec(index, samples, rate, finalizing),
{
    if rate == 0 {
        return None;
    }
    let span = SECONDS * (rate as u64);
    let pad = CONTEXT * (rate as u64);
    let start = match index.checked_mul(span) {
        Some(s) => s,
        None => return None,
    };
    if start >= samples {
        return None;
    }
    let end = match start.checked_add(span) {
        Some(e) => e,
        None => return None,
    };
    if !finalizing && samples < end + pad {
        return None;
    }
    Some(
        Window {
            start,
            end: if end < samples {
                end
            } else {
                samples
            },
            from: start.saturating_sub(pad),
            to: if end + pad < samples {
                end + pad
            } else {
                samples
            },
        },
    )
}

/// Every part of a finished recording, in order.
pub fn final_windows(samples: u64, rate: u32) -> (ws: Vec<Window>)
    requires
        samples < MAX_SAMPLES,
    ensures
        forall|i: int| 0 <= i < ws.len() ==> window_spec(i as u64, samples, rate, true) == Some(#[trigger] ws@[i]),
        window_spec(ws.len() as u64, samples, rate, true) is None,
{
    let mut ws: Vec<Window> = Vec::new();
    let mut index: u64 = 0;
    loop
        invariant
            samples < MAX_SAMPLES,
            ws.len() == index,
            forall|i: int| 0 <= i < ws.len() ==> window_spec(i as u64, samples, rate, true) == Some(#[trigger] ws@[i]),
        decreases samples - index,
    {
        match window(index, samples, rate, true) {
            Some(w) => {
                assert(index * (SECONDS * rate) < samples);
                assert(index < samples) by (nonlinear_arith)
                    requires
                        index * (SECONDS * rate) < samples,
                        rate >= 1,
                ;
                ws.push(w);
                index += 1;
            },
            None => return ws,
        }
    }
}

/// The core of a live part is the core of the same part at stop, and so is
/// the start of its context: a part cached while recording can be reused
/// when the recording ends, however much audio came after it.
pub proof fn law_live_part_survives_stop(index: u64, live: u64, total: u64, rate: u32)
    requires
        live <= total < MAX_SAMPLES,
        window_spec(index, live, rate, false) is Some,
    ensures
        window_spec(index, total, rate, true) is Some,
        window_spec(index, total, rate, true)->0.start == window_spec(index, live, rate, false)->0.start,
        window_spec(index, total, rate, true)->0.end == window_spec(index, live, rate, false)->0.end,
        window_spec(index, total, rate, true)->0.from == window_spec(index, live, rate, false)->0.from,
        window_spec(index, live, rate, false)->0.to <= window_spec(index, total, rate, true)->0.to,
{
}

/// The cores of the parts of a finished recording cut it into consecutive
/// pieces: part `i` exists exactly when `i` minutes start before the end,
/// its core is `i` minutes in and at most one minute long, each core ends
/// where the next begins, and the last one ends with the recording. Every
/// sample thus belongs to exactly one part.
pub proof fn law_final_windows_partition(samples: u64, rate: u32, i: u64)
    requires
        samples < MAX_SAMPLES,
        rate > 0,
    ensures
        window_spec(i, samples, rate, true) is Some <==> i * (SECONDS * rate) < samples,
        window_spec(i, samples, rate, true) matches Some(w) ==> {
            &&& w.start == i * (SECONDS * rate)
            &&& w.start < w.end <= samples
            &&& w.end - w.start <= SECONDS * rate
            &&& w.from <= w.start && w.end <= w.to <= samples
            &&& (w.end < samples ==> (window_spec((i + 1) as u64, samples, rate, true) matches Some(
                n,
            ) && n.start == w.end))
            &&& (w.end == samples ==> window_spec((i + 1) as u64, samples, rate, true) is None)
        },
{
    let span = SECONDS * rate;
    if i * span < samples {
        assert((i + 1) * span == i * span + span) by (nonlinear_arith);
        if i + 1 > u64::MAX {
            assert(i * span >= span * u64::MAX) by (nonlinear_arith)
                requires
                    i >= u64::MAX,
                    span >= 1,
            ;
        }
    }
}

/// The index of the part whose core holds sample `t`.
pub open spec fn owner_of(t: u64, rate: u32) -> int {
    t as int / (SECONDS * rate) as int
}

/// The part that owns sample `t` of a finished recording.
pub proof fn law_sample_owner(samples: u64, rate: u32, t: u64)
    requires
        samples < MAX_SAMPLES,
        rate > 0,
        t < samples,
    ensures
        (window_spec(owner_of(t, rate) as u64, samples, rate, true) matches Some(w) && w.start
            <= t < w.end),
        forall|i: u64|
            #![trigger window_spec(i, samples, rate, true)]
            (window_spec(i, samples, rate, true) matches Some(w) && w.start <= t < w.end) ==> i == owner_of(t, rate),
{
    let span = (SECONDS * rate) as int;
    let q = owner_of(t, rate);
    assert(0 <= q && q * span <= t < q * span + span) by (nonlinear_arith)
        requires
            span > 0,
            t >= 0,
            q == t as int / span,
    ;
    assert(q <= t) by (nonlinear_arith)
        requires
            span > 0,
            q * span <= t,
            q >= 0,
    ;
    assert forall|i: u64|
        #![trigger window_spec(i, samples, rate, true)]
        (window_spec(i, samples, rate, true) matches Some(w) && w.start <= t < w.end) implies i
        == q by {
        if let Some(w) = window_spec(i, samples, rate, true) {
            assert(i * span <= t < i * span + span);
            if i < q {
                assert(i * span + span <= q * span) by (nonlinear_arith)
                    requires
                        i < q,
                        span > 0,
                ;
            } else if i > q {
                assert(q * span + span <= i * span) by (nonlinear_arith)
                    requires
                        q < i,
                        span > 0,
                ;
            }
        }
    }
}

// ---------------------------------------------------------------------------
// Errors that send the whole audio again
// ---------------------------------------------------------------------------

/// Errors that come from joining parts, not from the network or the account:
/// only these make the whole audio be processed again.
pub open spec fn fallback_eligible_spec(error: Seq<char>) -> bool {
    ||| starts_with(error, "Alineacion:"@)
    ||| error == "Cache de segmento invalida"@
    ||| error == "Segmento guardado incompatible"@
}

/// Whether a failure to join the parts calls for the whole audio.
pub fn fallback_eligible(error: &str) -> (r: bool)
    ensures
        r == fallback_eligible_spec(error@),
{
    let e = chars_of(error);
    let prefix = chars_of("Alineacion:");
    starts_with_chars(e.as_slice(), prefix.as_slice()) || crate::text::str_eq(
        error,
        "Cache de segmento invalida",
    ) || crate::text::str_eq(error, "Segmento guardado incompatible")
}

/// How a stopped recording is turned into text.
#[derive(Clone, Copy, Debug, PartialEq, Eq, Structural)]
pub enum FinishRoute {
    /// Process the whole audio, as without transcription while recording.
    WholeAudio,
    /// Join the parts sent while recording, completing what is missing.
    Parts,
}

/// The whole audio is used once a join has failed, and, for current plans,
/// for recordings shorter than one part and its right context.
pub open spec fn finish_route_spec(fallback_marked: bool, version: u32, samples: u64, rate: u32) -> FinishRoute {
    if fallback_marked || (version >= 2 && samples < (SECONDS + CONTEXT) * rate) {
        FinishRoute::WholeAudio
    } else {
        FinishRoute::Parts
    }
}

pub fn finish_route(fallback_marked: bool, version: u32, samples: u64, rate: u32) -> (r: FinishRoute)
    ensures
        r == finish_route_spec(fallback_marked, version, samples, rate),
{
    if fallback_marked {
        FinishRoute::WholeAudio
    } else if version >= 2 && samples < 61 * (rate as u64) {
        FinishRoute::WholeAudio
    } else {
        FinishRoute::Parts
    }
}

/// Plans written by earlier versions stay readable.
pub fn plan_version(version: u32) -> (r: Result<u32, String>)
    ensures
        r is Ok <==> (version == 1 || version == 2),
        r matches Ok(v) ==> v == version,
        r matches Err(m) ==> m@ == "Version de segmentos no admitida"@,
{
    if version == 1 || version == 2 {
        Ok(version)
    } else {
        Err(String::from_str("Version de segmentos no admitida"))
    }
}

/// The length in samples of a recording and its rate, from the rate in its
/// manifest and the length in bytes of its 16-bit PCM.
pub fn session_info(sample_rate: u32, pcm_bytes: u64) -> (r: Result<(u64, u32), String>)
    ensures
        r is Ok <==> 0 < sample_rate <= 192_000,
        r matches Ok(p) ==> p.0 == pcm_bytes / 2 && p.1 == sample_rate && p.0 < MAX_SAMPLES,
        r matches Err(m) ==> m@ == "Frecuencia de audio no admitida"@,
{
    if sample_rate == 0 || sample_rate > 192_000 {
        return Err(String::from_str("Frecuencia de audio no admitida"));
    }
    Ok((pcm_bytes / 2, sample_rate))
}

/// A cached part is used only if it owns exactly the same core and starts
/// its context at the same sample; its right context may differ.
pub fn cached_part(cached: &Window, wanted: &Window, text: String) -> (r: Result<String, String>)
    ensures
        r is Ok <==> (cached.start == wanted.start && cached.end == wanted.end && cached.from
            == wanted.from),
        r matches Ok(t) ==> t == text,
        r matches Err(m) ==> m@ == "Segmento guardado incompatible"@,
{
    if cached.start != wanted.start || cached.end != wanted.end || cached.from != wanted.from {
        return Err(String::from_str("Segmento guardado incompatible"));
    }
    Ok(text)
}

/// A failed upload is tried again only after a connection failure or a
/// server error (HTTP 5xx), at most three attempts in all, waiting 2, then 4
/// seconds. Other failures (credentials, files, quota) are left for an
/// explicit retry.
pub open spec fn retry_delay_spec(attempt: u32, error: Seq<char>) -> Option<u64> {
    if (contains(error, "conectar"@) || contains(error, "HTTP 5"@)) && attempt < 2 {
        Some((2 * pow2(attempt as nat)) as u64)
    } else {
        None
    }
}

pub open spec fn pow2(n: nat) -> nat
    decreases n,
{
    if n == 0 {
        1
    } else {
        2 * pow2((n - 1) as nat)
    }
}

/// Seconds to wait before trying an upload again, or `None` to give up.
pub fn retry_delay(attempt: u32, error: &str) -> (r: Option<u64>)
    requires
        attempt < 3,
    ensures
        r == retry_delay_spec(attempt, error@),
{
    let e = chars_of(error);
    let a = chars_of("conectar");
    let b = chars_of("HTTP 5");
    let retry = contains_chars(e.as_slice(), a.as_slice()) || contains_chars(e.as_slice(), b.as_slice());
    if !retry || attempt == 2 {
        return None;
    }
    assert(pow2(1) == 2) by {
        assert(pow2(0) == 1);
    }
    if attempt == 0 {
        Some(2)
    } else {
        Some(4)
    }
}

/// Uploads while recording stop for good once the recorder has moved on to
/// another session or failed.
pub fn live_uploads_end(own: &str, session: &str, phase: &str) -> (r: bool)
    ensures
        r == (session@ != own@ || phase@ == "error"@),
{
    !crate::text::str_eq(session, own) || crate::text::str_eq(phase, "error")
}

/// What the background worker does next.
#[derive(Clone, Copy, Debug, PartialEq, Eq, Structural)]
pub enum RunStep {
    /// Recording was stopped or saved: send nothing more.
    Stop,
    /// Send this part.
    Send(Window),
    /// Wait for more audio.
    Wait,
}

/// One decision of the background worker: stop when asked, send the next
/// part once its core and right context are recorded, and wait otherwise.
pub fn run_step(stop: bool, index: u64, samples: u64, rate: u32) -> (r: RunStep)
    requires
        samples < MAX_SAMPLES,
    ensures
        stop ==> r == RunStep::Stop,
        !stop ==> (match window_spec(index, samples, rate, false) {
            Some(w) => r == RunStep::Send(w),
            None => r == RunStep::Wait,
        }),
{
    if stop {
        return RunStep::Stop;
    }
    match window(index, samples, rate, false) {
        Some(w) => RunStep::Send(w),
        None => RunStep::Wait,
    }
}


// ---------------------------------------------------------------------------
// The words a part owns
// ---------------------------------------------------------------------------

/// A recognised word of a part, as placed against the part's core by its
/// timestamps (floating-point seconds, compared by the caller).
#[derive(Clone, Debug)]
pub enum WordSlot {
    /// The start or end time is missing, negative, not finite or out of order.
    BadTime,
    /// The word's midpoint lies outside the core.
    Outside,
    /// The word's midpoint lies in the core; `None` when the word text is
    /// missing.
    Inside(Option<String>),
}

pub open spec fn no_timing_text() -> Seq<char> {
    "Groq no devolvio tiempos de palabras; reintenta el audio guardado"@
}

pub open spec fn bad_time_text() -> Seq<char> {
    "Tiempo de palabra invalido"@
}

pub open spec fn bad_word_text() -> Seq<char> {
    "Palabra invalida"@
}

pub open spec fn untimed_text() -> Seq<char> {
    "Respuesta sin tiempos; texto conservado pendiente de reintento"@
}

/// The first unusable word among the first `n`, as the message it gives.
pub open spec fn slot_problem(slots: Seq<WordSlot>, n: nat) -> Option<Seq<char>>
    decreases n,
{
    if n == 0 {
        None
    } else {
        match slot_problem(slots, (n - 1) as nat) {
            Some(m) => Some(m),
            None => match slots[n - 1] {
                WordSlot::BadTime => Some(bad_time_text()),
                WordSlot::Inside(None) => Some(bad_word_text()),
                _ => None,
            },
        }
    }
}

/// The trimmed words, among the first `n`, that the core owns.
pub open spec fn owned_words(slots: Seq<WordSlot>, n: nat) -> Seq<Seq<char>>
    decreases n,
{
    if n == 0 {
        Seq::empty()
    } else {
        let rest = owned_words(slots, (n - 1) as nat);
        match slots[n - 1] {
            WordSlot::Inside(Some(w)) => rest.push(trim(w@)),
            _ => rest,
        }
    }
}

/// The text a part contributes: the words whose midpoint falls in its core,
/// trimmed and joined by spaces. The context around the core is never taken,
/// so no word is pasted twice.
pub open spec fn owned_text_spec(words: Option<Vec<WordSlot>>, text: Option<String>) -> Result<
    Seq<char>,
    Seq<char>,
> {
    match words {
        None => Err(no_timing_text()),
        Some(v) => {
            let ws = v@;
            match slot_problem(ws, ws.len()) {
                Some(m) => Err(m),
                None => if ws.len() == 0 && (text matches Some(t) && trim(t@).len() > 0) {
                    Err(untimed_text())
                } else {
                    Ok(join(owned_words(ws, ws.len()), " "@))
                },
            }
        },
    }
}

/// The text a part owns, from its recognised words placed against its core
/// and the whole text of the response.
pub fn owned_text(words: Option<Vec<WordSlot>>, text: Option<String>) -> (r: Result<String, String>)
    ensures
        r matches Ok(t) ==> owned_text_spec(words, text) == Ok::<Seq<char>, Seq<char>>(t@),
        r matches Err(m) ==> owned_text_spec(words, text) == Err::<Seq<char>, Seq<char>>(m@),
{
    let ws = match words {
        None => return Err(String::from_str("Groq no devolvio tiempos de palabras; reintenta el audio guardado")),
        Some(ws) => ws,
    };
    let mut owned: Vec<String> = Vec::new();
    let mut i: usize = 0;
    while i < ws.len()
        invariant
            i <= ws.len(),
            words matches Some(v) && v@ == ws@,
            slot_problem(ws@, i as nat) is None,
            owned@.map_values(|w: String| w@) == owned_words(ws@, i as nat),
        decreases ws.len() - i,
    {
        match &ws[i] {
            WordSlot::BadTime => {
                assert(slot_problem(ws@, (i + 1) as nat) == Some(bad_time_text()));
                proof { lemma_slot_problem_stays(ws@, (i + 1) as nat, ws.len() as nat); }
                return Err(String::from_str("Tiempo de palabra invalido"));
            },
            WordSlot::Inside(None) => {
                assert(slot_problem(ws@, (i + 1) as nat) == Some(bad_word_text()));
                proof { lemma_slot_problem_stays(ws@, (i + 1) as nat, ws.len() as nat); }
                return Err(String::from_str("Palabra invalida"));
            },
            WordSlot::Inside(Some(w)) => {
                let t = string_of(trim_chars(chars_of(w.as_str()).as_slice()).as_slice());
                owned.push(t);
                assert(owned@.map_values(|w: String| w@) == owned_words(ws@, i as nat).push(t@));
            },
            WordSlot::Outside => {},
        }
        i += 1;
    }
    if ws.len() == 0 {
        if let Some(t) = &text {
            if trim_chars(chars_of(t.as_str()).as_slice()).len() > 0 {
                return Err(String::from_str("Respuesta sin tiempos; texto conservado pendiente de reintento"));
            }
        }
    }
    Ok(join_strings(owned.as_slice(), " "))
}

/// What an upload of a part gives: the text the part owns, or, where its
/// words cannot be placed, an alignment problem (the message prefixed with
/// "Alineacion: ").
pub open spec fn part_text_spec(words: Option<Vec<WordSlot>>, text: Option<String>) -> Result<Seq<char>, Seq<char>> {
    match owned_text_spec(words, text) {
        Ok(t) => Ok(t),
        Err(m) => Err("Alineacion: "@ + m),
    }
}

/// The text of an uploaded part, from its words placed against its core.
pub fn part_text(words: Option<Vec<WordSlot>>, text: Option<String>) -> (r: Result<String, String>)
    ensures
        r matches Ok(t) ==> part_text_spec(words, text) == Ok::<Seq<char>, Seq<char>>(t@),
        r matches Err(m) ==> part_text_spec(words, text) == Err::<Seq<char>, Seq<char>>(m@),
{
    match owned_text(words, text) {
        Ok(t) => Ok(t),
        Err(m) => {
            let mut v = chars_of("Alineacion: ");
            let mc = chars_of(m.as_str());
            crate::text::append_chars(&mut v, mc.as_slice(), 0, mc.len());
            assert(mc@.subrange(0, mc.len() as int) == mc@);
            Err(string_of(v.as_slice()))
        },
    }
}

/// A part whose words cannot be placed sends the whole audio again, rather
/// than guessing what it owns.
pub proof fn law_unplaced_words_fall_back(words: Option<Vec<WordSlot>>, text: Option<String>)
    requires
        part_text_spec(words, text) is Err,
    ensures
        fallback_eligible_spec(part_text_spec(words, text)->Err_0),
{
    reveal_strlit("Alineacion: ");
    reveal_strlit("Alineacion:");
    let m = part_text_spec(words, text)->Err_0;
    assert(m.subrange(0, 11) == "Alineacion:"@);
}

pub open spec fn empty_audio_text() -> Seq<char> {
    "Audio vacio"@
}

/// Joining parts needs at least one sample of audio.
pub fn audio_present(samples: u64) -> (r: Result<(), String>)
    ensures
        r is Ok <==> samples > 0,
        r matches Err(m) ==> m@ == empty_audio_text(),
{
    if samples == 0 {
        Err(String::from_str("Audio vacio"))
    } else {
        Ok(())
    }
}

pub open spec fn upload_stopped_text() -> Seq<char> {
    "Envio anticipado detenido"@
}

/// The failure of an upload skipped because the recording was stopped,
/// saved or cancelled; it is no alignment problem.
pub fn upload_stopped() -> (m: String)
    ensures
        m@ == upload_stopped_text(),
        !fallback_eligible_spec(m@),
{
    proof {
        reveal_strlit("Envio anticipado detenido");
        reveal_strlit("Alineacion:");
        reveal_strlit("Cache de segmento invalida");
        reveal_strlit("Segmento guardado incompatible");
        let m = upload_stopped_text();
        if starts_with(m, "Alineacion:"@) {
            assert(m.subrange(0, 11)[0] == m[0]);
        }
        assert("Cache de segmento invalida"@[0] != m[0]);
        assert("Segmento guardado incompatible"@[0] != m[0]);
    }
    String::from_str("Envio anticipado detenido")
}

proof fn lemma_slot_problem_stays(slots: Seq<WordSlot>, n: nat, m: nat)
    requires
        n <= m,
        slot_problem(slots, n) is Some,
    ensures
        slot_problem(slots, m) == slot_problem(slots, n),
    decreases m - n,
{
    if m > n {
        lemma_slot_problem_stays(slots, n, (m - 1) as nat);
    }
}


// ---------------------------------------------------------------------------
// Checking the join between two parts
// ---------------------------------------------------------------------------

/// Whether `char::is_alphanumeric` holds of `c`.
pub uninterp spec fn unicode_alphanumeric(c: char) -> bool;

/// The characters `char::to_lowercase` gives for `c`.
pub uninterp spec fn unicode_lowercase(c: char) -> Seq<char>;

/// A letter or digit: for an ASCII character, `A`..=`Z`, `a`..=`z` or
/// `0`..=`9`; for any other, `unicode_alphanumeric`.
pub open spec fn alphanumeric(c: char) -> bool {
    if (c as u32) < 128 {
        ('a' <= c <= 'z') || ('A' <= c <= 'Z') || ('0' <= c <= '9')
    } else {
        unicode_alphanumeric(c)
    }
}

/// The lowercase of a character: for an ASCII character the one character
/// `ascii_lower(c)`; for any other, `unicode_lowercase`.
pub open spec fn char_lower(c: char) -> Seq<char> {
    if (c as u32) < 128 {
        seq![crate::groq::ascii_lower(c)]
    } else {
        unicode_lowercase(c)
    }
}

/// `char::is_alphanumeric`. Claimed: the result is `unicode_alphanumeric(c)`,
/// and for an ASCII character it holds exactly of letters and digits (std
/// documents it as `is_alphabetic() || is_numeric()`).
#[verifier::external_body]
fn is_alphanumeric(c: char) -> (r: bool)
    ensures
        r == unicode_alphanumeric(c),
        (c as u32) < 128 ==> (r <==> ('a' <= c <= 'z' || 'A' <= c <= 'Z' || '0' <= c <= '9')),
{
    c.is_alphanumeric()
}

/// `char::to_lowercase`, collected. Claimed: the characters are
/// `unicode_lowercase(c)`, and for an ASCII character the one character
/// that ASCII lowercasing gives.
#[verifier::external_body]
fn lowercase_char(c: char) -> (r: Vec<char>)
    ensures
        r@ == unicode_lowercase(c),
        (c as u32) < 128 ==> r@ == seq![crate::groq::ascii_lower(c)],
{
    c.to_lowercase().collect()
}

/// A recognised word of a cached part, placed against a cut between two
/// parts by its timestamps (compared by the caller).
#[derive(Clone, Debug)]
pub enum CutSlot {
    /// The start or end time is missing.
    BadTime,
    /// The word's midpoint is more than 0.8 seconds from the cut.
    Far,
    /// The word's midpoint is near the cut, before it or not; `word` is
    /// `None` when the word text is missing.
    Near { before: bool, word: Option<String> },
}

/// The first `n` characters of a word, reduced to lowercase letters and
/// digits.
pub open spec fn token_prefix(w: Seq<char>, n: nat) -> Seq<char>
    decreases n,
{
    if n == 0 {
        Seq::empty()
    } else {
        token_prefix(w, (n - 1) as nat) + if alphanumeric(w[n - 1]) {
            char_lower(w[n - 1])
        } else {
            Seq::empty()
        }
    }
}

/// A word reduced to lowercase letters and digits.
pub open spec fn token_of(w: Seq<char>) -> Seq<char> {
    token_prefix(w, w.len())
}

fn token(w: &str) -> (t: Vec<char>)
    ensures
        t@ == token_of(w@),
{
    let v = chars_of(w);
    let mut out: Vec<char> = Vec::new();
    let mut i: usize = 0;
    while i < v.len()
        invariant
            i <= v.len(),
            v@ == w@,
            out@ == token_prefix(w@, i as nat),
        decreases v.len() - i,
    {
        if is_alphanumeric(v[i]) {
            let l = lowercase_char(v[i]);
            crate::text::append_chars(&mut out, l.as_slice(), 0, l.len());
            assert(l@.subrange(0, l.len() as int) == l@);
        } else {
            assert(out@ + Seq::<char>::empty() == out@);
        }
        i += 1;
    }
    out
}

/// The last near word before a cut and the first near word after it, as
/// read from the first `n` words of a part.
pub open spec fn signature_after(slots: Seq<CutSlot>, n: nat) -> Result<
    (Option<Seq<char>>, Option<Seq<char>>),
    Seq<char>,
>
    decreases n,
{
    if n == 0 {
        Ok((None, None))
    } else {
        match signature_after(slots, (n - 1) as nat) {
            Err(m) => Err(m),
            Ok((b, a)) => match slots[n - 1] {
                CutSlot::BadTime => Err("Alineacion: tiempo invalido"@),
                CutSlot::Far => Ok((b, a)),
                CutSlot::Near { before, word } => match word {
                    None => Err("Alineacion: palabra invalida"@),
                    Some(w) => {
                        let t = token_of(w@);
                        if t.len() == 0 {
                            Ok((b, a))
                        } else if before {
                            Ok((Some(t), a))
                        } else if a is None {
                            Ok((b, Some(t)))
                        } else {
                            Ok((b, a))
                        }
                    },
                },
            },
        }
    }
}

/// The words on either side of a cut as one part recognised them.
pub open spec fn signature_spec(alignment: Option<Vec<CutSlot>>) -> Result<
    (Option<Seq<char>>, Option<Seq<char>>),
    Seq<char>,
> {
    match alignment {
        None => Err("Alineacion: faltan tiempos guardados"@),
        Some(v) => signature_after(v@, v@.len()),
    }
}

/// Two parts join cleanly when both recognised the same word just before the
/// cut and the same word just after it; any disagreement, timestamp drift
/// included, is reported and never guessed away.
pub open spec fn join_check_spec(left: Option<Vec<CutSlot>>, right: Option<Vec<CutSlot>>) -> Result<
    (),
    Seq<char>,
> {
    match signature_spec(left) {
        Err(m) => Err(m),
        Ok(l) => match signature_spec(right) {
            Err(m) => Err(m),
            Ok(r) => if l == r {
                Ok(())
            } else {
                Err("Alineacion: union ambigua; usando audio completo"@)
            },
        },
    }
}

struct Signature {
    before: Option<Vec<char>>,
    after: Option<Vec<char>>,
}

spec fn opt_view(o: Option<Vec<char>>) -> Option<Seq<char>> {
    match o {
        Some(v) => Some(v@),
        None => None,
    }
}

fn signature(alignment: &Option<Vec<CutSlot>>) -> (r: Result<Signature, String>)
    ensures
        r matches Ok(s) ==> signature_spec(*alignment) == Ok::<(Option<Seq<char>>, Option<Seq<char>>), Seq<char>>((opt_view(s.before), opt_view(s.after))),
        r matches Err(m) ==> signature_spec(*alignment) == Err::<(Option<Seq<char>>, Option<Seq<char>>), Seq<char>>(m@),
{
    let slots = match alignment {
        None => return Err(String::from_str("Alineacion: faltan tiempos guardados")),
        Some(v) => v,
    };
    let mut before: Option<Vec<char>> = None;
    let mut after: Option<Vec<char>> = None;
    let mut i: usize = 0;
    while i < slots.len()
        invariant
            i <= slots.len(),
            *alignment == Some(*slots),
            signature_after(slots@, i as nat) == Ok::<(Option<Seq<char>>, Option<Seq<char>>), Seq<char>>((opt_view(before), opt_view(after))),
        decreases slots.len() - i,
    {
        match &slots[i] {
            CutSlot::BadTime => {
                assert(signature_after(slots@, (i + 1) as nat) == Err::<(Option<Seq<char>>, Option<Seq<char>>), Seq<char>>("Alineacion: tiempo invalido"@));
                proof { lemma_signature_error_stays(slots@, (i + 1) as nat, slots.len() as nat); }
                return Err(String::from_str("Alineacion: tiempo invalido"));
            },
            CutSlot::Far => {},
            CutSlot::Near { before: is_before, word } => match word {
                None => {
                    assert(signature_after(slots@, (i + 1) as nat) == Err::<(Option<Seq<char>>, Option<Seq<char>>), Seq<char>>("Alineacion: palabra invalida"@));
                    proof { lemma_signature_error_stays(slots@, (i + 1) as nat, slots.len() as nat); }
                    return Err(String::from_str("Alineacion: palabra invalida"));
                },
                Some(w) => {
                    let t = token(w.as_str());
                    if t.len() == 0 {
                    } else if *is_before {
                        before = Some(t);
                    } else if after.is_none() {
                        after = Some(t);
                    }
                },
            },
        }
        i += 1;
    }
    Ok(Signature { before, after })
}

proof fn lemma_signature_error_stays(slots: Seq<CutSlot>, n: nat, m: nat)
    requires
        n <= m,
        signature_after(slots, n) is Err,
    ensures
        signature_after(slots, m) == signature_after(slots, n),
    decreases m - n,
{
    if m > n {
        lemma_signature_error_stays(slots, n, (m - 1) as nat);
    }
}

fn opt_chars_eq(a: &Option<Vec<char>>, b: &Option<Vec<char>>) -> (r: bool)
    ensures
        r == (opt_view(*a) == opt_view(*b)),
{
    match (a, b) {
        (None, None) => true,
        (Some(x), Some(y)) => chars_eq(x.as_slice(), y.as_slice()),
        _ => false,
    }
}

/// Checks the join between two consecutive parts, from the words of the
/// left part and of the right part placed against the cut.
pub fn validate_join(left: &Option<Vec<CutSlot>>, right: &Option<Vec<CutSlot>>) -> (r: Result<(), String>)
    ensures
        r is Ok <==> join_check_spec(*left, *right) is Ok,
        r matches Err(m) ==> join_check_spec(*left, *right) == Err::<(), Seq<char>>(m@),
{
    let l = signature(left)?;
    let r = signature(right)?;
    if opt_chars_eq(&l.before, &r.before) && opt_chars_eq(&l.after, &r.after) {
        Ok(())
    } else {
        Err(String::from_str("Alineacion: union ambigua; usando audio completo"))
    }
}

/// Every join error starts with "Alineacion:", so each one sends the whole
/// audio rather than pasting text joined by a guess.
pub proof fn law_join_errors_fall_back(left: Option<Vec<CutSlot>>, right: Option<Vec<CutSlot>>)
    requires
        join_check_spec(left, right) is Err,
    ensures
        fallback_eligible_spec(join_check_spec(left, right)->Err_0),
{
    reveal_strlit("Alineacion:");
    reveal_strlit("Alineacion: union ambigua; usando audio completo");
    reveal_strlit("Alineacion: faltan tiempos guardados");
    reveal_strlit("Alineacion: tiempo invalido");
    reveal_strlit("Alineacion: palabra invalida");
    lemma_signature_errors(left);
    lemma_signature_errors(right);
    let m = join_check_spec(left, right)->Err_0;
    assert(m.subrange(0, 11) == "Alineacion:"@);
}

proof fn lemma_signature_errors(alignment: Option<Vec<CutSlot>>)
    ensures
        signature_spec(alignment) matches Err(m) ==> (m == "Alineacion: faltan tiempos guardados"@
            || m == "Alineacion: tiempo invalido"@ || m == "Alineacion: palabra invalida"@),
{
    if let Some(v) = alignment {
        lemma_signature_after_errors(v@, v@.len());
    }
}

proof fn lemma_signature_after_errors(slots: Seq<CutSlot>, n: nat)
    ensures
        signature_after(slots, n) matches Err(m) ==> (m == "Alineacion: tiempo invalido"@ || m
            == "Alineacion: palabra invalida"@),
    decreases n,
{
    if n > 0 {
        lemma_signature_after_errors(slots, (n - 1) as nat);
    }
}

// ---------------------------------------------------------------------------
// The final text
// ---------------------------------------------------------------------------

/// The parts' texts joined by spaces, with the dictionary applied once, to
/// the joined text.
pub fn join_parts(texts: &[String], rules: &[Rule]) -> (r: String)
    ensures
        r@ == crate::groq::corrected(join(texts@.map_values(|t: String| t@), " "@), rules@),
{
    let joined = join_strings(texts, " ");
    crate::groq::corrections(joined.as_str(), rules)
}

/// The whole-audio texts joined by blank lines, with the dictionary applied
/// once, to the joined text.
pub fn join_whole(texts: &[String], rules: &[Rule]) -> (r: String)
    ensures
        r@ == crate::groq::corrected(join(texts@.map_values(|t: String| t@), "\n\n"@), rules@),
{
    let joined = join_strings(texts, "\n\n");
    crate::groq::corrections(joined.as_str(), rules)
}


// ---------------------------------------------------------------------------
// Failures of the service
// ---------------------------------------------------------------------------

/// A failure of the network, the credentials or the quota is never taken
/// for a join problem: it does not make the whole audio be sent again.
pub proof fn law_service_failures_do_not_fall_back(status: u16)
    ensures
        !fallback_eligible_spec(crate::groq::http_error_text(status)),
        !fallback_eligible_spec(crate::groq::connect_error_text()),
{
    reveal_strlit("Groq respondio HTTP ");
    reveal_strlit("No se pudo conectar con Groq. El audio original sigue disponible.");
    reveal_strlit("Alineacion:");
    reveal_strlit("Cache de segmento invalida");
    reveal_strlit("Segmento guardado incompatible");
    let m = crate::groq::http_error_text(status);
    assert(m[0] == 'G');
    assert("Alineacion:"@[0] == 'A');
    if starts_with(m, "Alineacion:"@) {
        assert(m.subrange(0, 11)[0] == m[0]);
    }
    assert("Cache de segmento invalida"@[0] != m[0]);
    assert("Segmento guardado incompatible"@[0] != m[0]);
    let c = crate::groq::connect_error_text();
    assert(c[0] == 'N');
    if starts_with(c, "Alineacion:"@) {
        assert(c.subrange(0, 11)[0] == c[0]);
    }
    assert("Cache de segmento invalida"@[0] != c[0]);
    assert("Segmento guardado incompatible"@[0] != c[0]);
}

/// A server error (HTTP 5xx) or a connection failure is tried again, waiting
/// 2 then 4 seconds, up to the third attempt; nothing is tried after it.
pub proof fn law_transient_failures_retry(status: u16, attempt: u32)
    requires
        attempt < 3,
    ensures
        500 <= status <= 599 && attempt < 2 ==> retry_delay_spec(attempt, crate::groq::http_error_text(status))
            == Some(if attempt == 0 { 2u64 } else { 4u64 }),
        attempt < 2 ==> retry_delay_spec(attempt, crate::groq::connect_error_text()) == Some(
            if attempt == 0 { 2u64 } else { 4u64 },
        ),
        attempt == 2 ==> retry_delay_spec(attempt, crate::groq::http_error_text(status)) is None,
        attempt == 2 ==> retry_delay_spec(attempt, crate::groq::connect_error_text()) is None,
{
    reveal_strlit("Groq respondio HTTP ");
    reveal_strlit("HTTP 5");
    reveal_strlit("conectar");
    reveal_strlit("No se pudo conectar con Groq. El audio original sigue disponible.");
    assert(pow2(1) == 2) by {
        assert(pow2(0) == 1);
    }
    if 500 <= status <= 599 {
        let n = status as nat;
        let d2 = crate::text::decimal(n / 10 / 10);
        let d1 = crate::text::decimal(n / 10);
        let d0 = crate::text::decimal(n);
        assert(n / 10 / 10 == 5);
        assert(d2 == seq![crate::text::digit_char(5)]);
        assert(d1 == d2.push(crate::text::digit_char(((n / 10) % 10) as int)));
        assert(d0 == d1.push(crate::text::digit_char((n % 10) as int)));
        assert(d0[0] == d2[0]);
        assert(crate::text::digit_char(5) == '5');
        assert(d0[0] == '5');
        let m = crate::groq::http_error_text(status);
        assert(m.subrange(15, 21) == "HTTP 5"@);
        assert(occurs_at(m, "HTTP 5"@, 15));
    }
    let c = crate::groq::connect_error_text();
    assert(c.subrange(11, 19) == "conectar"@);
    assert(occurs_at(c, "conectar"@, 11));
}

/// The word a slot contributes to its part: the trimmed text of a word
/// whose midpoint lies in the core; nothing for any other slot.
pub open spec fn inside_word_text(slot: WordSlot) -> Option<Seq<char>> {
    match slot {
        WordSlot::Inside(Some(w)) => Some(trim(w@)),
        _ => None,
    }
}

proof fn lemma_owned_words_prefix(ws: Seq<WordSlot>, n: nat)
    requires
        n <= ws.len(),
    ensures
        owned_words(ws, n) == ws.subrange(0, n as int).filter_map(|s: WordSlot| inside_word_text(s)),
        slot_problem(ws, n) is None <==> forall|i: int| 0 <= i < n ==> !(#[trigger] ws[i] is BadTime)
            && !(ws[i] matches WordSlot::Inside(None)),
    decreases n,
{
    let f = |s: WordSlot| inside_word_text(s);
    if n == 0 {
        assert(ws.subrange(0, 0) =~= Seq::<WordSlot>::empty());
    } else {
        lemma_owned_words_prefix(ws, (n - 1) as nat);
        let p = ws.subrange(0, n as int);
        assert(p.drop_last() =~= ws.subrange(0, n - 1));
        assert(p.last() == ws[n - 1]);
        assert(p.filter_map(f) == (match f(p.last()) {
            Some(x) => p.drop_last().filter_map(f) + seq![x],
            None => p.drop_last().filter_map(f),
        }));
        match ws[n - 1] {
            WordSlot::Inside(Some(w)) => {
                assert(p.drop_last().filter_map(f) + seq![trim(w@)] =~= p.drop_last().filter_map(f).push(trim(w@)));
            },
            _ => {},
        }
    }
}

/// A part owns exactly the words whose midpoint lies in its core, trimmed,
/// in the order they were recognised; words in the context are never taken.
/// Its words are usable exactly when none has a bad time and every word in
/// the core has text; then, unless the response has text but no words, the
/// part's text is those words joined by single spaces.
pub proof fn law_part_owns_core_words(words: Vec<WordSlot>, text: Option<String>)
    ensures
        owned_words(words@, words@.len()) == words@.filter_map(|s: WordSlot| inside_word_text(s)),
        slot_problem(words@, words@.len()) is None <==> forall|i: int| 0 <= i < words@.len() ==> !(
        #[trigger] words@[i] is BadTime) && !(words@[i] matches WordSlot::Inside(None)),
        (slot_problem(words@, words@.len()) is None && !(words@.len() == 0 && (text matches Some(t)
            && trim(t@).len() > 0))) ==> owned_text_spec(Some(words), text) == Ok::<Seq<char>, Seq<char>>(
            join(words@.filter_map(|s: WordSlot| inside_word_text(s)), " "@),
        ),
{
    lemma_owned_words_prefix(words@, words@.len());
    assert(words@.subrange(0, words@.len() as int) =~= words@);
}

/// A recording shorter than one part and its right context (61 seconds) is
/// sent whole; so is any recording once a join has failed. Plans from the
/// first version always join their parts unless a join failed.
pub proof fn law_short_recordings_go_whole(fallback_marked: bool, version: u32, samples: u64, rate: u32)
    ensures
        finish_route_spec(fallback_marked, version, samples, rate) == (if fallback_marked || (version
            >= 2 && samples < 61 * rate) {
            FinishRoute::WholeAudio
        } else {
            FinishRoute::Parts
        }),
{
}

proof fn lemma_token_prefix_append(a: Seq<char>, b: Seq<char>, k: nat)
    requires
        k <= b.len(),
    ensures
        token_prefix(a + b, a.len() + k) == token_prefix(a, a.len()) + token_prefix(b, k),
    decreases k,
{
    if k == 0 {
        lemma_token_prefix_same(a + b, a, a.len());
        assert(token_prefix(a, a.len()) + Seq::<char>::empty() =~= token_prefix(a, a.len()));
    } else {
        lemma_token_prefix_append(a, b, (k - 1) as nat);
        assert((a + b)[a.len() + k - 1] == b[k - 1]);
        assert(token_prefix(a + b, a.len() + k) == token_prefix(a + b, (a.len() + k - 1) as nat) + (
        if alphanumeric(b[k - 1]) {
            char_lower(b[k - 1])
        } else {
            Seq::empty()
        }));
        assert(token_prefix(a, a.len()) + token_prefix(b, (k - 1) as nat) + (if alphanumeric(b[k - 1]) {
            char_lower(b[k - 1])
        } else {
            Seq::empty()
        }) =~= token_prefix(a, a.len()) + token_prefix(b, k));
    }
}

proof fn lemma_token_prefix_same(w: Seq<char>, v: Seq<char>, n: nat)
    requires
        n <= w.len(),
        n <= v.len(),
        forall|i: int| 0 <= i < n ==> w[i] == v[i],
    ensures
        token_prefix(w, n) == token_prefix(v, n),
    decreases n,
{
    if n > 0 {
        lemma_token_prefix_same(w, v, (n - 1) as nat);
    }
}

/// Words are compared at a cut by their letters and digits in lowercase:
/// an ASCII letter or digit gives its lowercase letter, any other ASCII
/// character nothing, and any other character its Unicode lowercase when
/// `char::is_alphanumeric` holds of it (so accented letters count) and
/// nothing otherwise; a word gives what its characters give, in order.
pub proof fn law_word_tokens(a: Seq<char>, b: Seq<char>, c: char)
    ensures
        token_of(a + b) == token_of(a) + token_of(b),
        token_of(seq![c]) == (if ('a' <= c <= 'z') || ('0' <= c <= '9') {
            seq![c]
        } else if 'A' <= c <= 'Z' {
            seq![((c as u32) + 32) as char]
        } else if (c as u32) < 128 {
            Seq::<char>::empty()
        } else if unicode_alphanumeric(c) {
            unicode_lowercase(c)
        } else {
            Seq::<char>::empty()
        }),
{
    lemma_token_prefix_append(a, b, b.len());
    assert(token_prefix(seq![c], 0) == Seq::<char>::empty());
    assert(Seq::<char>::empty() + seq![c] =~= seq![c]);
    assert(Seq::<char>::empty() + seq![((c as u32) + 32) as char] =~= seq![((c as u32) + 32) as char]);
    assert(Seq::<char>::empty() + unicode_lowercase(c) =~= unicode_lowercase(c));
    assert(Seq::<char>::empty() + Seq::<char>::empty() =~= Seq::<char>::empty());
}

} // verus!

//! Speech synthesis: reading errors out of synthesis replies, naming the
//! cached audio, picking a reference voice and reporting outcomes.
use vstd::prelude::*;

use crate::json::{str_member, str_member_of};
use crate::text::{
    chars_eq, first_chars, is_ascii_alnum, lower, parse_i64, parse_i64_spec, push_all, str_chars,
    string_from_chars, take_chars, to_lower, trim, trim_chars, u128_decimal, decimal,
};

verus! {

/// A message that carries no information: only the `message` member is
/// checked, and it is one when, trimmed and in lower case, it is empty or one
/// of the known stock phrases.
pub open spec fn placeholder_spec(text: Seq<char>, key: Seq<char>) -> bool {
    let t = lower(trim(text));
    key == "message"@ && (t.len() == 0 || t == "tts failed"@ || t == "tts 合成失败"@
        || t == "合成失败"@ || t == "failed"@)
}

/// Whether an error message is a stock phrase that hides the real cause.
pub fn is_placeholder_message(text: &str, key: &str) -> (b: bool)
    ensures
        b == placeholder_spec(text@, key@),
{
    let k = str_chars(key);
    let m = str_chars("message");
    if !chars_eq(k.as_slice(), m.as_slice()) {
        return false;
    }
    let t = to_lower(trim_chars(str_chars(text).as_slice()).as_slice());
    let p1 = str_chars("tts failed");
    let p2 = str_chars("tts 合成失败");
    let p3 = str_chars("合成失败");
    let p4 = str_chars("failed");
    t.len() == 0 || chars_eq(t.as_slice(), p1.as_slice()) || chars_eq(t.as_slice(), p2.as_slice())
        || chars_eq(t.as_slice(), p3.as_slice()) || chars_eq(t.as_slice(), p4.as_slice())
}

/// A member that can be shown: present as text, not empty, no stock phrase.
pub open spec fn shown(text: Option<Seq<char>>, key: Seq<char>) -> bool {
    text matches Some(t) && t.len() > 0 && !placeholder_spec(t, key)
}

/// The message shown for a failed synthesis reply: `detail`, else a
/// `message` that is no stock phrase, else `Exception` (each when it is
/// non-empty text), else the first 240 characters of the body.
pub open spec fn error_message_spec(body: Seq<char>) -> Seq<char> {
    let d = str_member(body, "detail"@);
    let m = str_member(body, "message"@);
    let e = str_member(body, "Exception"@);
    if shown(d, "detail"@) {
        d->0
    } else if shown(m, "message"@) {
        m->0
    } else if shown(e, "Exception"@) {
        e->0
    } else {
        first_chars(body, 240)
    }
}

/// Extracts the message to show from the body of a failed synthesis reply.
pub fn extract_error_message(body: &str) -> (r: String)
    ensures
        r@ == error_message_spec(body@),
{
    let d = str_member_of(body, "detail");
    if let Some(t) = d {
        if str_chars(t.as_str()).len() > 0 && !is_placeholder_message(t.as_str(), "detail") {
            return t;
        }
    }
    let m = str_member_of(body, "message");
    if let Some(t) = m {
        if str_chars(t.as_str()).len() > 0 && !is_placeholder_message(t.as_str(), "message") {
            return t;
        }
    }
    let e = str_member_of(body, "Exception");
    if let Some(t) = e {
        if str_chars(t.as_str()).len() > 0 && !is_placeholder_message(t.as_str(), "Exception") {
            return t;
        }
    }
    take_chars(body, 240)
}

/// The file extension used for cached audio: the trimmed, lower-cased
/// extension when it is 1 to 8 ASCII letters or digits, else `wav`.
pub open spec fn extension_spec(raw: Seq<char>) -> Seq<char> {
    let e = lower(trim(raw));
    if 0 < e.len() <= 8 && (forall|i: int| 0 <= i < e.len() ==> is_ascii_alnum(#[trigger] e[i])) {
        e
    } else {
        "wav"@
    }
}

/// Cleans an audio file extension, refusing path separators and the like.
pub fn sanitize_extension(raw: &str) -> (r: String)
    ensures
        r@ == extension_spec(raw@),
{
    let e = to_lower(trim_chars(str_chars(raw).as_slice()).as_slice());
    if e.len() == 0 || e.len() > 8 {
        return "wav".to_string();
    }
    let mut i: usize = 0;
    while i < e.len()
        invariant
            i <= e@.len(),
            e@ == lower(trim(raw@)),
            forall|j: int| 0 <= j < i ==> is_ascii_alnum(#[trigger] e@[j]),
        decreases e@.len() - i,
    {
        let c = e[i];
        if !(('0' <= c && c <= '9') || ('a' <= c && c <= 'z') || ('A' <= c && c <= 'Z')) {
            assert(!is_ascii_alnum(e@[i as int]));
            return "wav".to_string();
        }
        i = i + 1;
    }
    string_from_chars(e.as_slice())
}

/// A cleaned extension is always 1 to 8 ASCII letters or digits, so it can
/// never carry a path separator or a dot.
pub proof fn lemma_extension_safe(raw: Seq<char>)
    ensures
        0 < extension_spec(raw).len() <= 8,
        forall|i: int| 0 <= i < extension_spec(raw).len() ==> is_ascii_alnum(#[trigger] extension_spec(raw)[i]),
{
    reveal_strlit("wav");
}

/// The audio file extensions accepted as reference audio (lower case).
pub open spec fn audio_ext_spec(ext: Seq<char>) -> bool {
    ext == "wav"@ || ext == "mp3"@ || ext == "ogg"@ || ext == "aac"@ || ext == "flac"@
        || ext == "m4a"@ || ext == "opus"@ || ext == "webm"@
}

/// Whether a file extension (compared without ASCII case) names audio.
pub fn is_audio_extension(ext: Option<&str>) -> (b: bool)
    ensures
        b == (ext matches Some(e) && audio_ext_spec(lower(e@))),
{
    let e = match ext {
        Some(e) => e,
        None => return false,
    };
    let l = to_lower(str_chars(e).as_slice());
    chars_eq(l.as_slice(), str_chars("wav").as_slice())
        || chars_eq(l.as_slice(), str_chars("mp3").as_slice())
        || chars_eq(l.as_slice(), str_chars("ogg").as_slice())
        || chars_eq(l.as_slice(), str_chars("aac").as_slice())
        || chars_eq(l.as_slice(), str_chars("flac").as_slice())
        || chars_eq(l.as_slice(), str_chars("m4a").as_slice())
        || chars_eq(l.as_slice(), str_chars("opus").as_slice())
        || chars_eq(l.as_slice(), str_chars("webm").as_slice())
}

/// A configured integer: the trimmed text read as an `i64`, else `fallback`
/// (also when nothing is configured).
pub open spec fn number_spec(raw: Option<Seq<char>>, fallback: i64) -> i64 {
    match raw {
        Some(s) => match parse_i64_spec(trim(s)) {
            Some(v) => v,
            None => fallback,
        },
        None => fallback,
    }
}

/// Reads a configured integer, falling back when it is missing or invalid.
pub fn to_number(raw: Option<String>, fallback: i64) -> (r: i64)
    ensures
        r == number_spec(match raw { Some(s) => Some(s@), None => None }, fallback),
{
    match raw {
        Some(s) => {
            let t = trim_chars(str_chars(s.as_str()).as_slice());
            match parse_i64(t.as_slice()) {
                Some(v) => v,
                None => fallback,
            }
        },
        None => fallback,
    }
}

/// `{base}/tts`, with the base's trailing slashes dropped.
pub fn build_tts_url(base: &str) -> (r: String)
    ensures
        r@ == crate::providers::endpoint(base@, "/tts"@),
{
    crate::providers::join_endpoint(base, "/tts")
}

/// A reference voice (an "emotion"): a named reference recording with its
/// transcript and language.
pub struct Emotion {
    pub name: String,
    pub audio_path: String,
    pub prompt_text: String,
    pub prompt_lang: String,
}

/// The configured voices that carry a name (not blank once trimmed), in order.
pub open spec fn named(v: Seq<Emotion>) -> Seq<Emotion>
    decreases v.len(),
{
    if v.len() == 0 {
        Seq::empty()
    } else {
        let rest = named(v.drop_last());
        if trim(v.last().name@).len() > 0 { rest.push(v.last()) } else { rest }
    }
}

/// Drops the configured voices whose name is blank.
pub fn keep_named_emotions(list: Vec<Emotion>) -> (r: Vec<Emotion>)
    ensures
        r@ == named(list@),
{
    let ghost all = list@;
    let mut rest = list;
    let mut out: Vec<Emotion> = Vec::new();
    let mut k: usize = 0;
    let n = rest.len();
    while rest.len() > 0
        invariant
            k <= all.len(),
            all.len() == n,
            k + rest@.len() == n,
            rest@ == all.skip(k as int),
            out@ == named(all.take(k as int)),
        decreases rest@.len(),
    {
        let e = rest.remove(0);
        assert(e == all[k as int]);
        assert(all.take(k as int + 1).drop_last() =~= all.take(k as int));
        assert(all.take(k as int + 1).last() == all[k as int]);
        if trim_chars(str_chars(e.name.as_str()).as_slice()).len() > 0 {
            out.push(e);
        }
        k = k + 1;
        assert(rest@ =~= all.skip(k as int));
    }
    assert(all.take(k as int) =~= all);
    out
}

/// The voice name asked for: the trimmed request, when not blank.
pub open spec fn requested(voice: Option<String>) -> Option<Seq<char>> {
    match voice {
        Some(v) => if trim(v@).len() > 0 { Some(trim(v@)) } else { None },
        None => None,
    }
}

/// Finds the reference voice for a synthesis request, by its position: the
/// first voice with the requested name, or the first voice when no name is
/// asked for.
pub fn find_voice(emotions: &Vec<Emotion>, voice: &Option<String>) -> (r: Option<usize>)
    ensures
        r matches Some(i) ==> i < emotions@.len(),
        requested(*voice) matches Some(t) ==> match r {
            Some(i) => emotions@[i as int].name@ == t
                && forall|j: int| 0 <= j < i ==> emotions@[j].name@ != t,
            None => forall|j: int| 0 <= j < emotions@.len() ==> emotions@[j].name@ != t,
        },
        requested(*voice) is None ==> match r {
            Some(i) => i == 0,
            None => emotions@.len() == 0,
        },
{
    if let Some(v) = voice {
        let t = trim_chars(str_chars(v.as_str()).as_slice());
        if t.len() > 0 {
            assert(requested(*voice) == Some(t@));
            let mut i: usize = 0;
            while i < emotions.len()
                invariant
                    i <= emotions@.len(),
                    t@ == trim(v@),
                    requested(*voice) == Some(t@),
                    forall|j: int| 0 <= j < i ==> emotions@[j].name@ != t@,
                decreases emotions@.len() - i,
            {
                let n = str_chars(emotions[i].name.as_str());
                if chars_eq(n.as_slice(), t.as_slice()) {
                    return Some(i);
                }
                i = i + 1;
            }
            return None;
        }
    }
    if emotions.len() > 0 { Some(0) } else { None }
}

/// The outcome of a synthesis request as handed to the front end.
pub struct TtsSynthesizeOutcome {
    pub ok: bool,
    /// Path of the audio under the asset protocol, as `tts/tts_<stamp>.wav`.
    pub asset_path: Option<String>,
    pub file_name: Option<String>,
    /// Size of the audio in bytes.
    pub size: Option<u64>,
    /// Readable error.
    pub error: Option<String>,
    /// Structured error code.
    pub error_code: Option<String>,
}

/// A failed synthesis with its error code.
pub fn fail_outcome(code: &str, error: String) -> (r: TtsSynthesizeOutcome)
    ensures
        !r.ok,
        r.asset_path is None,
        r.file_name is None,
        r.size is None,
        r.error == Some(error),
        r.error_code matches Some(c) && c@ == code@,
{
    TtsSynthesizeOutcome {
        ok: false,
        asset_path: None,
        file_name: None,
        size: None,
        error: Some(error),
        error_code: Some(code.to_string()),
    }
}

/// A synthesis request: the text, and optionally the voice to use.
pub struct TtsSynthesizeArgs {
    pub text: String,
    pub voice: Option<String>,
}

/// Synthesised audio saved to the cache.
pub struct TtsAudioResult {
    /// Path under the asset protocol, as `tts/tts_<stamp>.<ext>`.
    pub asset_path: String,
    pub file_name: String,
    pub size: u64,
}

/// The name of a cached synthesis: `tts_<stamp>.<ext>`.
pub open spec fn cache_name(stamp: nat, ext: Seq<char>) -> Seq<char> {
    "tts_"@ + decimal(stamp) + "."@ + ext
}

/// Describes audio cached under `tts_<stamp>.<ext>` (with the extension
/// cleaned), of `size` bytes.
pub fn audio_result(stamp: u128, extension: &str, size: u64) -> (r: TtsAudioResult)
    ensures
        r.file_name@ == cache_name(stamp as nat, extension_spec(extension@)),
        r.asset_path@ == "tts/"@ + r.file_name@,
        r.size == size,
{
    let ext = sanitize_extension(extension);
    let mut name = str_chars("tts_");
    let d = u128_decimal(stamp);
    push_all(&mut name, d.as_slice());
    name.push('.');
    push_all(&mut name, str_chars(ext.as_str()).as_slice());
    let mut asset = str_chars("tts/");
    push_all(&mut asset, name.as_slice());
    proof {
        reveal_strlit("tts_");
        reveal_strlit("tts/");
        reveal_strlit(".");
    }
    assert(name@ =~= cache_name(stamp as nat, extension_spec(extension@)));
    TtsAudioResult {
        asset_path: string_from_chars(asset.as_slice()),
        file_name: string_from_chars(name.as_slice()),
        size,
    }
}

/// The error for a reply with a failing HTTP status:
/// `TTS 接口返回 <status>: <message>`.
pub fn http_error_text(status: &str, body: &str) -> (r: String)
    ensures
        r@ == "TTS 接口返回 "@ + status@ + ": "@ + error_message_spec(body@),
{
    let mut out = str_chars("TTS 接口返回 ");
    push_all(&mut out, str_chars(status).as_slice());
    push_all(&mut out, str_chars(": ").as_slice());
    let m = extract_error_message(body);
    push_all(&mut out, str_chars(m.as_str()).as_slice());
    string_from_chars(out.as_slice())
}

/// A successful synthesis of `size` bytes cached under `tts_<stamp>.wav`.
pub fn synthesized(stamp: u128, size: u64) -> (r: TtsSynthesizeOutcome)
    ensures
        r.ok,
        r.file_name matches Some(f) && f@ == cache_name(stamp as nat, "wav"@),
        r.asset_path matches Some(a) && a@ == "tts/"@ + cache_name(stamp as nat, "wav"@),
        r.size == Some(size),
        r.error is None,
        r.error_code is None,
{
    let a = audio_result(stamp, "wav", size);
    proof {
        reveal_strlit("wav");
        crate::text::lemma_trim_plain("wav"@);
        assert(lower("wav"@) =~= "wav"@);
    }
    TtsSynthesizeOutcome {
        ok: true,
        asset_path: Some(a.asset_path),
        file_name: Some(a.file_name),
        size: Some(size),
        error: None,
        error_code: None,
    }
}

} // verus!

verus! {

/// Seconds a synthesized file is kept in the cache (two hours).
pub const CACHE_KEEP_SECS: i64 = 7200;

/// The cut-off of the cache at `now`: two hours earlier, held at the
/// smallest `i64` (saturating).
pub open spec fn cache_cutoff(now: i64) -> int {
    if now - CACHE_KEEP_SECS < i64::MIN { i64::MIN as int } else { now - CACHE_KEEP_SECS }
}

/// Whether a cached file (modified at `modified`, in Unix seconds) is removed
/// when the cache is pruned at `now`: it was modified before the cut-off.
pub fn is_stale_cache_file(now: i64, modified: i64) -> (b: bool)
    ensures
        b == (modified < cache_cutoff(now)),
{
    let cutoff = if now < i64::MIN + CACHE_KEEP_SECS { i64::MIN } else { now - CACHE_KEEP_SECS };
    modified < cutoff
}

} // verus!

verus! {

/// Each of `wav`, `mp3`, `ogg`, `aac`, `flac`, `m4a`, `opus` and `webm`, in
/// any ASCII case, names audio; other extensions, and none, do not.
pub proof fn lemma_audio_extensions(ext: Seq<char>)
    ensures
        (lower(ext) == "wav"@ || lower(ext) == "mp3"@ || lower(ext) == "ogg"@ || lower(ext) == "aac"@
            || lower(ext) == "flac"@ || lower(ext) == "m4a"@ || lower(ext) == "opus"@ || lower(ext) == "webm"@)
            <==> audio_ext_spec(lower(ext)),
{
}

} // verus!

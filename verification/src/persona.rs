//! Character cards: SillyTavern cards in JSON, or embedded in a PNG `tEXt`
//! chunk whose keyword is `chara`, turned into persona fields.
use vstd::prelude::*;
use vstd::utf8::{decode_utf8, valid_utf8};

use crate::json::{json_normalize, json_normalize_bytes, json_reformat, json_reformat_bytes, str_member, str_member_of};
use crate::config::ConfigValue;
use crate::resource::{forward_slashes, slashes};
use crate::text::{
    any_control, chars_eq, fields, i64_decimal, int_text, is_control, lead_char_count, push_all, slice_range,
    str_chars, string_from_chars, trim, trim_chars, trim_start_char, decimal,
};
use base64::Engine as _;

verus! {

/// The eight bytes that open every PNG file.
pub open spec fn png_signature() -> Seq<u8> {
    seq![0x89u8, 0x50u8, 0x4eu8, 0x47u8, 0x0du8, 0x0au8, 0x1au8, 0x0au8]
}

/// `data` opens with the PNG signature.
pub open spec fn is_png_spec(data: Seq<u8>) -> bool {
    data.len() >= 8 && data.take(8) == png_signature()
}

/// Whether `data` is a PNG file (by its signature).
pub fn is_png(data: &[u8]) -> (b: bool)
    ensures
        b == is_png_spec(data@),
{
    if data.len() < 8 {
        return false;
    }
    let ok = data[0] == 0x89 && data[1] == 0x50 && data[2] == 0x4e && data[3] == 0x47
        && data[4] == 0x0d && data[5] == 0x0a && data[6] == 0x1a && data[7] == 0x0a;
    proof {
        if ok {
            assert(data@.take(8) =~= png_signature());
        } else {
            assert(data@.take(8) != png_signature()) by {
                if data@.take(8) == png_signature() {
                    assert(data@.take(8)[0] == data@[0]);
                    assert(data@.take(8)[1] == data@[1]);
                    assert(data@.take(8)[2] == data@[2]);
                    assert(data@.take(8)[3] == data@[3]);
                    assert(data@.take(8)[4] == data@[4]);
                    assert(data@.take(8)[5] == data@[5]);
                    assert(data@.take(8)[6] == data@[6]);
                    assert(data@.take(8)[7] == data@[7]);
                }
            }
        }
    }
    ok
}

/// Big-endian 32-bit number at `at`.
pub open spec fn be_u32(data: Seq<u8>, at: int) -> nat {
    (data[at] as nat) * 16777216 + (data[at + 1] as nat) * 65536 + (data[at + 2] as nat) * 256
        + (data[at + 3] as nat)
}

pub open spec fn text_tag() -> Seq<u8> {
    seq![0x74u8, 0x45u8, 0x58u8, 0x74u8]
}

pub open spec fn iend_tag() -> Seq<u8> {
    seq![0x49u8, 0x45u8, 0x4eu8, 0x44u8]
}

/// `chara`, the keyword under which a card is stored.
pub open spec fn chara_keyword() -> Seq<u8> {
    seq![0x63u8, 0x68u8, 0x61u8, 0x72u8, 0x61u8]
}

/// ASCII lower-casing of a byte.
pub open spec fn lower_byte(b: u8) -> u8 {
    if 0x41 <= b <= 0x5a {
        (b + 32) as u8
    } else {
        b
    }
}

/// `eq_ignore_ascii_case` with `chara`.
pub open spec fn is_chara_keyword(k: Seq<u8>) -> bool {
    k.len() == 5 && forall|i: int| 0 <= i < 5 ==> lower_byte(#[trigger] k[i]) == chara_keyword()[i]
}

/// Index of the first zero byte at or after `from`.
pub open spec fn first_nul(s: Seq<u8>, from: int) -> Option<int>
    decreases s.len() - from,
{
    if from < 0 || from >= s.len() {
        None
    } else if s[from] == 0 {
        Some(from)
    } else {
        first_nul(s, from + 1)
    }
}

/// What a `tEXt` chunk body carries under the `chara` keyword, if anything.
pub open spec fn chara_text(chunk: Seq<u8>) -> Option<Seq<u8>> {
    match first_nul(chunk, 0) {
        Some(nul) => if is_chara_keyword(chunk.take(nul)) {
            Some(chunk.skip(nul + 1))
        } else {
            None
        },
        None => None,
    }
}

/// Walks the chunk list from byte `offset` (which opens a chunk) and gives the
/// first `chara` text, stopping at `IEND`, at a chunk that does not fit, or at
/// the end of the data.
pub open spec fn chara_from(data: Seq<u8>, offset: nat) -> Option<Seq<u8>>
    decreases data.len() - offset,
{
    if offset + 8 > data.len() {
        None
    } else {
        let length = be_u32(data, offset as int);
        let start = offset + 8;
        if start + length + 4 > data.len() {
            None
        } else {
            let kind = data.subrange(offset + 4 as int, offset + 8 as int);
            let found = if kind == text_tag() {
                chara_text(data.subrange(start as int, (start + length) as int))
            } else {
                None
            };
            if found is Some {
                found
            } else if kind == iend_tag() {
                None
            } else {
                chara_from(data, start + length + 4)
            }
        }
    }
}

fn find_nul(s: &[u8], lo: usize, hi: usize) -> (r: Option<usize>)
    requires
        lo <= hi <= s@.len(),
    ensures
        match r {
            Some(i) => first_nul(s@.subrange(lo as int, hi as int), 0) == Some((i - lo) as int) && lo <= i < hi,
            None => first_nul(s@.subrange(lo as int, hi as int), 0) is None,
        },
{
    let ghost c = s@.subrange(lo as int, hi as int);
    let mut i = lo;
    while i < hi
        invariant
            lo <= i <= hi <= s@.len(),
            c == s@.subrange(lo as int, hi as int),
            first_nul(c, 0) == first_nul(c, (i - lo) as int),
        decreases hi - i,
    {
        if s[i] == 0 {
            assert(c[(i - lo) as int] == 0);
            return Some(i);
        }
        assert(c[(i - lo) as int] != 0);
        i = i + 1;
    }
    None
}

fn keyword_is_chara(s: &[u8], lo: usize, hi: usize) -> (b: bool)
    requires
        lo <= hi <= s@.len(),
    ensures
        b == is_chara_keyword(s@.subrange(lo as int, hi as int)),
{
    let ghost k = s@.subrange(lo as int, hi as int);
    if hi - lo != 5 {
        return false;
    }
    let expect: [u8; 5] = [0x63, 0x68, 0x61, 0x72, 0x61];
    assert(expect@ =~= chara_keyword());
    let mut i: usize = 0;
    while i < 5
        invariant
            i <= 5,
            hi - lo == 5,
            lo <= hi <= s@.len(),
            k == s@.subrange(lo as int, hi as int),
            expect@ == chara_keyword(),
            forall|j: int| 0 <= j < i ==> lower_byte(#[trigger] k[j]) == chara_keyword()[j],
        decreases 5 - i,
    {
        let b = s[lo + i];
        let l = if 0x41 <= b && b <= 0x5a { b + 32 } else { b };
        assert(k[i as int] == b);
        if l != expect[i] {
            return false;
        }
        i = i + 1;
    }
    true
}

/// Finds the `chara` text of a SillyTavern PNG card: the text after the first
/// zero byte of the first `tEXt` chunk whose keyword is `chara` (in any case).
pub fn extract_png_chara(data: &[u8]) -> (r: Option<Vec<u8>>)
    ensures
        match r {
            Some(v) => chara_from(data@, 8) == Some(v@),
            None => chara_from(data@, 8) is None,
        },
{
    let n = data.len();
    let mut offset: usize = 8;
    while offset <= n && n - offset >= 8
        invariant
            n == data@.len(),
            8 <= offset,
            chara_from(data@, 8) == chara_from(data@, offset as nat),
        decreases n - offset,
    {
        let length: u64 = (data[offset] as u64) * 16777216 + (data[offset + 1] as u64) * 65536
            + (data[offset + 2] as u64) * 256 + (data[offset + 3] as u64);
        let start = offset + 8;
        assert(length == be_u32(data@, offset as int));
        if n - start < 4 || length > (n - start - 4) as u64 {
            return None;
        }
        let len = length as usize;
        let end = start + len;
        let is_text = data[offset + 4] == 0x74 && data[offset + 5] == 0x45 && data[offset + 6] == 0x58
            && data[offset + 7] == 0x74;
        let is_iend = data[offset + 4] == 0x49 && data[offset + 5] == 0x45 && data[offset + 6] == 0x4e
            && data[offset + 7] == 0x44;
        let ghost kind = data@.subrange(offset + 4, offset + 8);
        proof {
            assert(kind[0] == data@[offset + 4]);
            assert(kind[1] == data@[offset + 5]);
            assert(kind[2] == data@[offset + 6]);
            assert(kind[3] == data@[offset + 7]);
            if is_text {
                assert(kind =~= text_tag());
            } else {
                assert(kind != text_tag()) by {
                    if kind == text_tag() {
                        assert(text_tag()[0] == 0x74u8);
                    }
                }
            }
            if is_iend {
                assert(kind =~= iend_tag());
            } else {
                assert(kind != iend_tag()) by {
                    if kind == iend_tag() {
                        assert(iend_tag()[0] == 0x49u8);
                    }
                }
            }
        }
        if is_text {
            let ghost chunk = data@.subrange(start as int, end as int);
            match find_nul(data, start, end) {
                Some(nul) => {
                    if keyword_is_chara(data, start, nul) {
                        proof {
                            assert(chunk.take((nul - start) as int) =~= data@.subrange(start as int, nul as int));
                        }
                        let mut out: Vec<u8> = Vec::new();
                        let mut j = nul + 1;
                        while j < end
                            invariant
                                nul + 1 <= j <= end <= n,
                                n == data@.len(),
                                out@ == data@.subrange(nul + 1, j as int),
                            decreases end - j,
                        {
                            out.push(data[j]);
                            j = j + 1;
                            assert(out@ =~= data@.subrange(nul + 1, j as int));
                        }
                        assert(chunk.skip(nul - start + 1) =~= data@.subrange(nul + 1, end as int));
                        return Some(out);
                    } else {
                        proof {
                            assert(chunk.take((nul - start) as int) =~= data@.subrange(start as int, nul as int));
                        }
                    }
                },
                None => {},
            }
        }
        if is_iend {
            return None;
        }
        offset = end + 4;
    }
    None
}

/// `str::from_utf8`: the text that `bytes` encode, when they are valid UTF-8;
/// else the error's message (whose text the contract leaves open).
#[verifier::external_body]
pub(crate) fn utf8_text(bytes: &[u8]) -> (r: Result<String, String>)
    ensures
        r is Ok <==> valid_utf8(bytes@),
        r matches Ok(s) ==> s@ == decode_utf8(bytes@),
{
    std::str::from_utf8(bytes).map(|s| s.to_string()).map_err(|e| e.to_string())
}

/// What the `base64` crate's `STANDARD` engine decodes `text` to.
pub uninterp spec fn base64_standard(text: Seq<char>) -> Option<Seq<u8>>;

/// What the `base64` crate's `STANDARD_NO_PAD` engine decodes `text` to.
pub uninterp spec fn base64_standard_no_pad(text: Seq<char>) -> Option<Seq<u8>>;

/// `base64::engine::general_purpose::STANDARD.decode`: the contract claims
/// only that the result is a function of the text, named `base64_standard`
/// (the error's message is left open).
#[verifier::external_body]
pub(crate) fn decode_standard(text: &str) -> (r: Result<Vec<u8>, String>)
    ensures
        match r {
            Ok(v) => base64_standard(text@) == Some(v@),
            Err(_) => base64_standard(text@) is None,
        },
{
    base64::engine::general_purpose::STANDARD.decode(text).map_err(|e| e.to_string())
}

/// `base64::engine::general_purpose::STANDARD_NO_PAD.decode`: the contract
/// claims only that the result is a function of the text, named
/// `base64_standard_no_pad`.
#[verifier::external_body]
fn decode_standard_no_pad(text: &str) -> (r: Option<Vec<u8>>)
    ensures
        match r {
            Some(v) => base64_standard_no_pad(text@) == Some(v@),
            None => base64_standard_no_pad(text@) is None,
        },
{
    base64::engine::general_purpose::STANDARD_NO_PAD.decode(text).ok()
}

/// Lenient base64 decoding of trimmed UTF-8 text: padded first, then unpadded.
pub open spec fn decode_base64_spec(input: Seq<u8>) -> Option<Seq<u8>> {
    if !valid_utf8(input) {
        None
    } else {
        let t = trim(decode_utf8(input));
        match base64_standard(t) {
            Some(v) => Some(v),
            None => base64_standard_no_pad(t),
        }
    }
}

/// Decodes base64 text, accepting it with or without padding.
pub fn decode_base64(input: &[u8]) -> (r: Option<Vec<u8>>)
    ensures
        match r {
            Some(v) => decode_base64_spec(input@) == Some(v@),
            None => decode_base64_spec(input@) is None,
        },
{
    let text = match utf8_text(input) {
        Ok(t) => t,
        Err(_) => return None,
    };
    let chars = str_chars(text.as_str());
    let trimmed = trim_chars(chars.as_slice());
    let t = string_from_chars(trimmed.as_slice());
    match decode_standard(t.as_str()) {
        Ok(v) => Some(v),
        Err(_) => decode_standard_no_pad(t.as_str()),
    }
}

/// Rejection of a persona name: blank, or holding a control character.
pub open spec fn name_error(name: Seq<char>) -> Option<Seq<char>> {
    if trim(name).len() == 0 {
        Some("人设名称不能为空"@)
    } else if exists|i: int| 0 <= i < name.len() && is_control(#[trigger] name[i]) {
        Some("人设名称不能包含控制字符"@)
    } else {
        None
    }
}

/// Checks a persona name.
pub fn validate_name(name: &str) -> (r: Result<(), String>)
    ensures
        match r {
            Ok(()) => name_error(name@) is None,
            Err(e) => name_error(name@) == Some(e@),
        },
{
    let chars = str_chars(name);
    let t = trim_chars(chars.as_slice());
    if t.len() == 0 {
        return Err("人设名称不能为空".to_string());
    }
    if any_control(chars.as_slice()) {
        return Err("人设名称不能包含控制字符".to_string());
    }
    Ok(())
}


/// Persona fields read from a character card.
pub struct PersonaFields {
    pub name: String,
    pub personality: String,
    pub first_mes: String,
}

/// Text of top-level string member `key`, or empty.
pub open spec fn card_get(card: Seq<char>, key: Seq<char>) -> Seq<char> {
    match str_member(card, key) {
        Some(s) => s,
        None => Seq::empty(),
    }
}

/// `a`, then `b` when it is not empty, joined by a line break.
pub open spec fn join_line(a: Seq<char>, b: Seq<char>) -> Seq<char> {
    if b.len() == 0 {
        a
    } else if a.len() == 0 {
        b
    } else {
        a + seq!['\n'] + b
    }
}

/// The persona text: description, personality and scenario, each trimmed,
/// the non-empty ones joined by line breaks.
pub open spec fn card_personality(card: Seq<char>) -> Seq<char> {
    join_line(
        join_line(trim(card_get(card, "description"@)), trim(card_get(card, "personality"@))),
        trim(card_get(card, "scenario"@)),
    )
}

/// The name: the card's own when it is not blank, else the file stem.
pub open spec fn card_name(card: Seq<char>, file_stem: Seq<char>) -> Seq<char> {
    if trim(card_get(card, "name"@)).len() == 0 {
        file_stem
    } else {
        card_get(card, "name"@)
    }
}

fn get_member(card: &str, key: &str) -> (r: Vec<char>)
    ensures
        r@ == card_get(card@, key@),
{
    match str_member_of(card, key) {
        Some(s) => str_chars(s.as_str()),
        None => Vec::new(),
    }
}

fn join_line_exec(a: Vec<char>, b: &[char]) -> (r: Vec<char>)
    ensures
        r@ == join_line(a@, b@),
{
    if b.len() == 0 {
        a
    } else if a.len() == 0 {
        let mut r: Vec<char> = Vec::new();
        push_all(&mut r, b);
        assert(r@ =~= b@);
        r
    } else {
        let mut r = a;
        r.push('\n');
        push_all(&mut r, b);
        r
    }
}

/// Reads the persona fields of a SillyTavern card (the card's JSON text).
pub fn parse_sillytavern_card(card: &str, file_stem: &str) -> (f: PersonaFields)
    ensures
        f.name@ == card_name(card@, file_stem@),
        f.personality@ == card_personality(card@),
        f.first_mes@ == card_get(card@, "first_mes"@),
{
    let name_v = get_member(card, "name");
    let name_t = trim_chars(name_v.as_slice());
    let name = if name_t.len() == 0 {
        file_stem.to_string()
    } else {
        string_from_chars(name_v.as_slice())
    };
    let d = get_member(card, "description");
    let p = get_member(card, "personality");
    let s = get_member(card, "scenario");
    let dt = trim_chars(d.as_slice());
    let pt = trim_chars(p.as_slice());
    let st = trim_chars(s.as_slice());
    let j1 = join_line_exec(dt, pt.as_slice());
    let j2 = join_line_exec(j1, st.as_slice());
    let first = get_member(card, "first_mes");
    PersonaFields {
        name,
        personality: string_from_chars(j2.as_slice()),
        first_mes: string_from_chars(first.as_slice()),
    }
}

/// A card ready to be stored: its fields, its JSON (compact), and the PNG that
/// carried it, kept as the avatar.
pub struct CardImport {
    pub fields: PersonaFields,
    pub card_json: String,
    pub avatar_png: Option<Vec<u8>>,
}

/// The card's JSON text (compact) that a card file yields, or the error.
pub open spec fn card_json_of(bytes: Seq<u8>) -> Result<Seq<char>, Seq<char>> {
    if is_png_spec(bytes) {
        match chara_from(bytes, 8) {
            None => Err("PNG 角色卡中未找到 chara 数据段"@),
            Some(raw) => match decode_base64_spec(raw) {
                None => Err("角色卡 chara 数据解码失败"@),
                Some(decoded) => match json_reformat_bytes(decoded) {
                    Ok(j) => Ok(j),
                    Err(e) => Err("角色卡 JSON 解析失败: "@ + e),
                },
            },
        }
    } else if !valid_utf8(bytes) {
        Err("角色卡不是 UTF-8 文本"@)
    } else {
        match json_reformat(decode_utf8(bytes)) {
            Ok(j) => Ok(j),
            Err(e) => Err("角色卡 JSON 解析失败: "@ + e),
        }
    }
}

fn json_error(e: String) -> (r: String)
    ensures
        r@ == "角色卡 JSON 解析失败: "@ + e@,
{
    let mut v = str_chars("角色卡 JSON 解析失败: ");
    let ev = str_chars(e.as_str());
    push_all(&mut v, ev.as_slice());
    string_from_chars(v.as_slice())
}

/// Reads a character card file (a PNG card or a JSON card): its JSON and
/// fields, with the PNG kept as avatar; fails when no card can be read or its
/// name is not acceptable.
pub fn import_card(bytes: &[u8], file_stem: &str) -> (r: Result<CardImport, String>)
    ensures
        match r {
            Ok(c) => {
                &&& card_json_of(bytes@) == Ok::<Seq<char>, Seq<char>>(c.card_json@)
                &&& c.fields.name@ == card_name(c.card_json@, file_stem@)
                &&& c.fields.personality@ == card_personality(c.card_json@)
                &&& c.fields.first_mes@ == card_get(c.card_json@, "first_mes"@)
                &&& name_error(c.fields.name@) is None
                &&& (c.avatar_png matches Some(p) ==> p@ == bytes@)
                &&& (c.avatar_png is Some <==> is_png_spec(bytes@))
            },
            Err(e) => match card_json_of(bytes@) {
                Err(m) => e@ == m,
                Ok(j) => name_error(card_name(j, file_stem@)) == Some(e@),
            },
        },
{
    let (json, avatar) = if is_png(bytes) {
        let raw = match extract_png_chara(bytes) {
            Some(raw) => raw,
            None => return Err("PNG 角色卡中未找到 chara 数据段".to_string()),
        };
        let decoded = match decode_base64(raw.as_slice()) {
            Some(d) => d,
            None => return Err("角色卡 chara 数据解码失败".to_string()),
        };
        let json = match json_normalize_bytes(decoded.as_slice()) {
            Ok(j) => j,
            Err(e) => return Err(json_error(e)),
        };
        let mut copy: Vec<u8> = Vec::new();
        let mut i: usize = 0;
        while i < bytes.len()
            invariant
                i <= bytes@.len(),
                copy@ == bytes@.take(i as int),
            decreases bytes@.len() - i,
        {
            copy.push(bytes[i]);
            i = i + 1;
            assert(copy@ =~= bytes@.take(i as int));
        }
        assert(bytes@.take(bytes@.len() as int) =~= bytes@);
        (json, Some(copy))
    } else {
        let text = match utf8_text(bytes) {
            Ok(t) => t,
            Err(_) => return Err("角色卡不是 UTF-8 文本".to_string()),
        };
        let json = match json_normalize(text.as_str()) {
            Ok(j) => j,
            Err(e) => return Err(json_error(e)),
        };
        (json, None)
    };
    let fields = parse_sillytavern_card(json.as_str(), file_stem);
    validate_name(fields.name.as_str())?;
    Ok(CardImport { fields, card_json: json, avatar_png: avatar })
}

} // verus!

verus! {

/// A persona as shown to the front end.
pub struct PersonaRecord {
    pub id: i64,
    pub name: String,
    pub personality: String,
    pub first_mes: String,
    /// Avatar, relative to the resources directory.
    pub avatar_path: Option<String>,
    /// `manual` or `sillytavern`.
    pub source: String,
    pub created_at: i64,
    pub updated_at: i64,
}

/// A persona to create or update.
pub struct PersonaUpsertArgs {
    pub name: String,
    pub personality: String,
    pub first_mes: String,
}

impl PersonaUpsertArgs {
    /// What creating or updating a persona stores: the name checked (see
    /// [`validate_name`]) and trimmed, the persona text and first message as
    /// given.
    pub fn normalized(&self) -> (r: Result<PersonaUpsertArgs, String>)
        ensures
            match r {
                Ok(a) => name_error(self.name@) is None && a.name@ == trim(self.name@)
                    && a.personality == self.personality && a.first_mes == self.first_mes,
                Err(e) => name_error(self.name@) == Some(e@),
            },
    {
        validate_name(self.name.as_str())?;
        let name = string_from_chars(trim_chars(str_chars(self.name.as_str()).as_slice()).as_slice());
        Ok(PersonaUpsertArgs { name, personality: self.personality.clone(), first_mes: self.first_mes.clone() })
    }
}

/// Whether deleting persona `deleted` clears the stored selection: the
/// selection names that persona.
pub fn clears_selection(selected: &Option<ConfigValue>, deleted: i64) -> (b: bool)
    ensures
        b == (*selected matches Some(ConfigValue::Integer(s)) && s == deleted),
{
    match selected {
        Some(ConfigValue::Integer(s)) => *s == deleted,
        _ => false,
    }
}

/// Where a persona's avatar is stored, relative to the resources directory:
/// `personas/avatars/<id>.png`.
pub fn avatar_relative_path(id: i64) -> (r: String)
    ensures
        r@ == "personas/avatars/"@ + int_text(id as int) + ".png"@,
{
    let mut v = str_chars("personas/avatars/");
    push_all(&mut v, i64_decimal(id).as_slice());
    push_all(&mut v, str_chars(".png").as_slice());
    string_from_chars(v.as_slice())
}

/// The non-empty fields, in order.
pub open spec fn non_empty(f: Seq<Seq<char>>) -> Seq<Seq<char>>
    decreases f.len(),
{
    if f.len() == 0 {
        Seq::empty()
    } else {
        let r = non_empty(f.drop_last());
        if f.last().len() > 0 { r.push(f.last()) } else { r }
    }
}

/// The segments of a stored avatar path: backslashes read as slashes,
/// leading slashes dropped, empty segments skipped.
pub open spec fn avatar_segments(path: Seq<char>) -> Seq<Seq<char>> {
    non_empty(fields(trim_start_char(slashes(path), '/'), '/'))
}

/// An avatar path that may be removed: exactly three segments, under
/// `personas/avatars`.
pub open spec fn avatar_path_ok(path: Seq<char>) -> bool {
    let s = avatar_segments(path);
    s.len() == 3 && s[0] == "personas"@ && s[1] == "avatars"@
}

fn segments_of(s: &[char]) -> (r: Vec<Vec<char>>)
    ensures
        r@.map_values(|v: Vec<char>| v@) == non_empty(fields(s@, '/')),
{
    let mut out: Vec<Vec<char>> = Vec::new();
    let mut cur: Vec<char> = Vec::new();
    let mut i: usize = 0;
    assert(s@.take(0) =~= Seq::<char>::empty());
    while i < s.len()
        invariant
            i <= s@.len(),
            fields(s@.take(i as int), '/').len() > 0,
            out@.map_values(|v: Vec<char>| v@) == non_empty(fields(s@.take(i as int), '/').drop_last()),
            cur@ == fields(s@.take(i as int), '/').last(),
        decreases s@.len() - i,
    {
        let c = s[i];
        let ghost f = fields(s@.take(i as int), '/');
        assert(s@.take(i as int + 1).drop_last() =~= s@.take(i as int));
        assert(s@.take(i as int + 1).last() == c);
        if c == '/' {
            proof {
                assert(fields(s@.take(i as int + 1), '/') == f.push(Seq::<char>::empty()));
                assert(f.push(Seq::<char>::empty()).drop_last() =~= f);
                assert(f =~= f.drop_last().push(f.last()));
            }
            let ghost before = out@.map_values(|v: Vec<char>| v@);
            if cur.len() > 0 {
                out.push(cur);
                assert(out@.map_values(|v: Vec<char>| v@) =~= before.push(f.last()));
            }
            cur = Vec::new();
        } else {
            cur.push(c);
            proof {
                let g = f.update(f.len() - 1, f.last().push(c));
                assert(g.drop_last() =~= f.drop_last());
            }
        }
        i = i + 1;
    }
    assert(s@.take(s@.len() as int) =~= s@);
    proof {
        let f = fields(s@, '/');
        assert(f =~= f.drop_last().push(f.last()));
    }
    let ghost before = out@.map_values(|v: Vec<char>| v@);
    if cur.len() > 0 {
        out.push(cur);
        assert(out@.map_values(|v: Vec<char>| v@) =~= before.push(fields(s@, '/').last()));
    }
    out
}

/// The path an avatar is saved under is one that may be removed.
pub proof fn lemma_saved_avatar_removable(id: int)
    ensures
        avatar_path_ok("personas/avatars/"@ + int_text(id) + ".png"@),
{
    reveal_strlit("personas/avatars/");
    reveal_strlit(".png");
    reveal_strlit("personas");
    reveal_strlit("avatars");
    let name = int_text(id) + ".png"@;
    let p = "personas/avatars/"@ + name;
    crate::text::lemma_decimal_digits(if id < 0 { (-id) as nat } else { id as nat });
    assert forall|i: int| 0 <= i < name.len() implies name[i] != '/' && name[i] != '\\' by {
        if i < int_text(id).len() {
            if id < 0 {
                if i > 0 {
                    assert(int_text(id)[i] == decimal((-id) as nat)[i - 1]);
                }
            }
        }
    }
    assert(slashes(p) =~= p);
    assert(p[0] == 'p');
    assert(crate::text::lead_count(p, '/') == 0);
    assert(trim_start_char(slashes(p), '/') =~= p);
    let e = Seq::<char>::empty();
    assert("personas/avatars/"@ =~= e + "personas"@ + seq!['/'] + "avatars"@ + seq!['/']);
    crate::text::lemma_fields_append(e, "personas"@, '/');
    assert(fields(e, '/') == seq![e]);
    assert(fields(e + "personas"@, '/') =~= seq!["personas"@]);
    let a1 = e + "personas"@ + seq!['/'];
    assert(a1.drop_last() =~= e + "personas"@);
    assert(fields(a1, '/') =~= seq!["personas"@, e]);
    crate::text::lemma_fields_append(a1, "avatars"@, '/');
    assert(fields(a1 + "avatars"@, '/') =~= seq!["personas"@, "avatars"@]);
    let a2 = a1 + "avatars"@ + seq!['/'];
    assert(a2.drop_last() =~= a1 + "avatars"@);
    assert(fields(a2, '/') =~= seq!["personas"@, "avatars"@, e]);
    crate::text::lemma_fields_append(a2, name, '/');
    assert(a2 + name =~= p);
    let f = fields(p, '/');
    assert(f =~= seq!["personas"@, "avatars"@, name]);
    let f1 = f.drop_last().drop_last();
    let f2 = f.drop_last();
    assert(f1.drop_last() =~= Seq::<Seq<char>>::empty());
    assert(f1 =~= seq!["personas"@]);
    assert(f2 =~= seq!["personas"@, "avatars"@]);
    assert(non_empty(Seq::<Seq<char>>::empty()) == Seq::<Seq<char>>::empty());
    assert(f1.last().len() > 0);
    assert(non_empty(f1) =~= Seq::<Seq<char>>::empty().push("personas"@));
    assert(f2.last().len() > 0);
    assert(non_empty(f2) =~= seq!["personas"@].push("avatars"@));
    assert(f.last().len() > 0);
    assert(non_empty(f) =~= seq!["personas"@, "avatars"@].push(name));
    assert(p =~= "personas/avatars/"@ + int_text(id) + ".png"@);
    assert(avatar_segments(p) =~= seq!["personas"@, "avatars"@, name]);
}

/// Whether a stored avatar path may be removed: it must name a file directly
/// under `personas/avatars` of the resources directory.
pub fn avatar_path_allowed(avatar_path: &str) -> (b: bool)
    ensures
        b == avatar_path_ok(avatar_path@),
{
    let n = str_chars(forward_slashes(avatar_path).as_str());
    let k = lead_char_count(n.as_slice(), '/');
    let t = slice_range(n.as_slice(), k, n.len());
    assert(t@ =~= trim_start_char(slashes(avatar_path@), '/'));
    let segs = segments_of(t.as_slice());
    let ghost sv = segs@.map_values(|v: Vec<char>| v@);
    if segs.len() != 3 {
        return false;
    }
    assert(sv[0] == segs@[0]@ && sv[1] == segs@[1]@);
    chars_eq(segs[0].as_slice(), str_chars("personas").as_slice())
        && chars_eq(segs[1].as_slice(), str_chars("avatars").as_slice())
}

} // verus!

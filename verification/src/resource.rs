//! Resources: their types, the safety rules for archive entries, and how a
//! Live2D model's entry file is recognised and named.
use vstd::prelude::*;

use crate::text::{
    join, split_from, chars_eq, char_is_control, ends_with, find_char_from, find_from, is_control, is_ascii_alpha,
    lemma_find_from_bounds, lower, push_all, slice_range, str_chars, string_from_chars, to_lower,
    trim, trim_chars, has_suffix, decimal, lemma_decimal, u64_decimal,
};

verus! {

/// Kinds of application resources.
#[derive(Debug, Clone, Copy, PartialEq, Eq, Structural)]
pub enum ResourceType {
    /// A Live2D model.
    Live2D,
}

impl ResourceType {
    /// Directory name under `data/resources`.
    pub fn dir_name(self) -> (r: &'static str)
        ensures
            r@ == "live2d"@,
    {
        match self {
            ResourceType::Live2D => "live2d",
        }
    }

    /// Name used by the API, the front end and the logs.
    pub fn as_str(self) -> (r: &'static str)
        ensures
            r@ == "live2d"@,
    {
        match self {
            ResourceType::Live2D => "live2d",
        }
    }

    /// Parses a resource type, ignoring surrounding whitespace and ASCII case.
    pub fn from_str(value: &str) -> (r: Option<ResourceType>)
        ensures
            r is Some <==> lower(trim(value@)) == "live2d"@,
            r matches Some(t) ==> t == ResourceType::Live2D,
    {
        let v = str_chars(value);
        let t = trim_chars(v.as_slice());
        let l = to_lower(t.as_slice());
        let live2d = str_chars("live2d");
        if chars_eq(l.as_slice(), live2d.as_slice()) {
            Some(ResourceType::Live2D)
        } else {
            None
        }
    }

    /// Whether this is a Live2D model.
    pub fn is_live2d(self) -> (b: bool)
        ensures
            b == (self == ResourceType::Live2D),
    {
        match self {
            ResourceType::Live2D => true,
        }
    }
}

/// The name `as_str` gives a resource type (`live2d`) is one `from_str`
/// reads back as that type.
pub proof fn lemma_resource_type_round_trip()
    ensures
        lower(trim("live2d"@)) == "live2d"@,
{
    reveal_strlit("live2d");
    crate::text::lemma_trim_plain("live2d"@);
    assert(lower("live2d"@) =~= "live2d"@);
}

/// Concatenation of a message and a detail.
pub fn message_with(prefix: &str, detail: &str) -> (r: String)
    ensures
        r@ == prefix@ + detail@,
{
    let mut v = str_chars(prefix);
    let d = str_chars(detail);
    push_all(&mut v, d.as_slice());
    string_from_chars(v.as_slice())
}

/// Parses a resource type named by the front end.
pub fn parse_resource_type(value: &str) -> (r: Result<ResourceType, String>)
    ensures
        match r {
            Ok(t) => lower(trim(value@)) == "live2d"@ && t == ResourceType::Live2D,
            Err(e) => lower(trim(value@)) != "live2d"@ && e@ == "未知的资源类型: "@ + value@,
        },
{
    match ResourceType::from_str(value) {
        Some(t) => Ok(t),
        None => Err(message_with("未知的资源类型: ", value)),
    }
}

/// Failures of resource downloads.
pub enum DownloadError {
    /// The network request failed.
    Network(String),
    /// The local file system failed.
    Io(String),
    /// The archive could not be read.
    Zip(String),
    /// The back end reported an error.
    Api(String),
    /// The resource parameters are not acceptable.
    InvalidResource(String),
    /// The archive's content is not acceptable.
    InvalidArchive(String),
}

/// The text that describes a download error.
pub open spec fn download_error_text(e: DownloadError) -> Seq<char> {
    match e {
        DownloadError::Network(m) => "网络错误: "@ + m@,
        DownloadError::Io(m) => "IO 错误: "@ + m@,
        DownloadError::Zip(m) => "ZIP 错误: "@ + m@,
        DownloadError::Api(m) => "API 错误: "@ + m@,
        DownloadError::InvalidResource(m) => "资源参数错误: "@ + m@,
        DownloadError::InvalidArchive(m) => "资源包无效: "@ + m@,
    }
}

impl DownloadError {
    /// The message shown for this error.
    pub fn message(&self) -> (r: String)
        ensures
            r@ == download_error_text(*self),
    {
        match self {
            DownloadError::Network(m) => message_with("网络错误: ", m.as_str()),
            DownloadError::Io(m) => message_with("IO 错误: ", m.as_str()),
            DownloadError::Zip(m) => message_with("ZIP 错误: ", m.as_str()),
            DownloadError::Api(m) => message_with("API 错误: ", m.as_str()),
            DownloadError::InvalidResource(m) => message_with("资源参数错误: ", m.as_str()),
            DownloadError::InvalidArchive(m) => message_with("资源包无效: ", m.as_str()),
        }
    }
}

/// `s` with every backslash turned into a slash.
pub open spec fn slashes(s: Seq<char>) -> Seq<char> {
    s.map_values(|c: char| if c == '\\' { '/' } else { c })
}

/// Why an archive entry path is refused.
#[derive(PartialEq, Eq, Structural)]
pub enum ZipPathIssue {
    Absolute,
    Drive,
    Traversal,
    Control,
}

/// The kept segments of a path (empty and `.` segments dropped), or the first
/// refused segment's issue.
pub open spec fn clean_segments(parts: Seq<Seq<char>>) -> Result<Seq<Seq<char>>, ZipPathIssue>
    decreases parts.len(),
{
    if parts.len() == 0 {
        Ok(Seq::empty())
    } else {
        let p = parts[0];
        if p.len() == 0 || p == "."@ {
            clean_segments(parts.drop_first())
        } else if p == ".."@ {
            Err(ZipPathIssue::Traversal)
        } else if exists|i: int| 0 <= i < p.len() && is_control(#[trigger] p[i]) {
            Err(ZipPathIssue::Control)
        } else {
            match clean_segments(parts.drop_first()) {
                Ok(rest) => Ok(seq![p] + rest),
                Err(e) => Err(e),
            }
        }
    }
}

/// The segments an archive entry keeps are safe: none is empty, `.` or
/// `..`, and none holds a control character.
pub proof fn lemma_clean_segments_safe(parts: Seq<Seq<char>>)
    ensures
        clean_segments(parts) matches Ok(k) ==> forall|i: int| 0 <= i < k.len() ==> {
            &&& (#[trigger] k[i]).len() > 0
            &&& k[i] != "."@
            &&& k[i] != ".."@
            &&& forall|j: int| 0 <= j < k[i].len() ==> !is_control(k[i][j])
        },
    decreases parts.len(),
{
    if parts.len() > 0 {
        lemma_clean_segments_safe(parts.drop_first());
        let p = parts[0];
        if !(p.len() == 0 || p == "."@) && p != ".."@ && !(exists|i: int| 0 <= i < p.len() && is_control(#[trigger] p[i])) {
            match clean_segments(parts.drop_first()) {
                Ok(rest) => {
                    let k = seq![p] + rest;
                    assert forall|i: int| 0 <= i < k.len() implies {
                        &&& (#[trigger] k[i]).len() > 0
                        &&& k[i] != "."@
                        &&& k[i] != ".."@
                        &&& forall|j: int| 0 <= j < k[i].len() ==> !is_control(k[i][j])
                    } by {
                        if i > 0 {
                            assert(k[i] == rest[i - 1]);
                        }
                    }
                },
                Err(_) => {},
            }
        }
    }
}

/// `kept` put before the segments of an outcome.
pub open spec fn prepend(kept: Seq<Seq<char>>, r: Result<Seq<Seq<char>>, ZipPathIssue>) -> Result<Seq<Seq<char>>, ZipPathIssue> {
    match r {
        Ok(x) => Ok(kept + x),
        Err(e) => Err(e),
    }
}

/// The clean relative path of an archive entry, or why it is refused.
pub open spec fn zip_path(raw: Seq<char>) -> Result<Seq<char>, ZipPathIssue> {
    let n = slashes(raw);
    if raw.len() == 0 {
        Ok(Seq::empty())
    } else if n[0] == '/' {
        Err(ZipPathIssue::Absolute)
    } else if n.len() >= 2 && is_ascii_alpha(n[0]) && n[1] == ':' {
        Err(ZipPathIssue::Drive)
    } else {
        match clean_segments(split_from(n, '/', 0)) {
            Ok(parts) => Ok(join(parts, seq!['/'])),
            Err(e) => Err(e),
        }
    }
}

/// The message of a refused entry path.
pub open spec fn zip_issue_message(issue: ZipPathIssue, raw: Seq<char>) -> Seq<char> {
    match issue {
        ZipPathIssue::Absolute => "ZIP 包包含绝对路径: "@ + raw,
        ZipPathIssue::Drive => "ZIP 包包含 Windows 绝对路径: "@ + raw,
        ZipPathIssue::Traversal => "ZIP 条目包含路径穿越: "@ + raw,
        ZipPathIssue::Control => "ZIP 条目包含非法字符: "@ + raw,
    }
}

fn is_dot(p: &[char]) -> (b: bool)
    ensures
        b == (p@ == "."@),
{
    let d = str_chars(".");
    chars_eq(p, d.as_slice())
}

fn is_dot_dot(p: &[char]) -> (b: bool)
    ensures
        b == (p@ == ".."@),
{
    let d = str_chars("..");
    chars_eq(p, d.as_slice())
}

fn has_control(p: &[char]) -> (b: bool)
    ensures
        b == exists|i: int| 0 <= i < p@.len() && is_control(#[trigger] p@[i]),
{
    crate::text::any_control(p)
}

/// Cleans and checks the path of an archive entry: backslashes become
/// slashes; absolute paths, drive letters, `..` segments and control
/// characters are refused; empty and `.` segments are dropped.
pub fn sanitize_zip_path(raw: &str) -> (r: Result<String, DownloadError>)
    ensures
        match r {
            Ok(p) => zip_path(raw@) == Ok::<Seq<char>, ZipPathIssue>(p@),
            Err(e) => match zip_path(raw@) {
                Err(issue) => e == DownloadError::InvalidArchive(e->InvalidArchive_0)
                    && e->InvalidArchive_0@ == zip_issue_message(issue, raw@),
                Ok(_) => false,
            },
        },
{
    let rv = str_chars(raw);
    if rv.len() == 0 {
        return Ok(String::new());
    }
    let mut n: Vec<char> = Vec::new();
    let mut i: usize = 0;
    while i < rv.len()
        invariant
            i <= rv@.len(),
            n@ == slashes(rv@.take(i as int)),
        decreases rv@.len() - i,
    {
        let c = if rv[i] == '\\' { '/' } else { rv[i] };
        n.push(c);
        i = i + 1;
        assert(n@ =~= slashes(rv@.take(i as int)));
    }
    assert(rv@.take(rv@.len() as int) =~= rv@);
    if n[0] == '/' {
        return Err(DownloadError::InvalidArchive(message_with("ZIP 包包含绝对路径: ", raw)));
    }
    if n.len() >= 2 && (('a' <= n[0] && n[0] <= 'z') || ('A' <= n[0] && n[0] <= 'Z')) && n[1] == ':' {
        return Err(DownloadError::InvalidArchive(message_with("ZIP 包包含 Windows 绝对路径: ", raw)));
    }
    let len = n.len();
    let mut out: Vec<char> = Vec::new();
    let ghost mut kept: Seq<Seq<char>> = Seq::empty();
    let mut any = false;
    let mut pos: usize = 0;
    let mut done = false;
    while !done
        invariant
            len == n@.len(),
            pos <= len,
            n@ == slashes(raw@),
            raw@.len() > 0,
            n@[0] != '/',
            !(n@.len() >= 2 && is_ascii_alpha(n@[0]) && n@[1] == ':'),
            out@ == join(kept, seq!['/']),
            any == (kept.len() > 0),
            !done ==> clean_segments(split_from(n@, '/', 0)) == prepend(kept, clean_segments(split_from(n@, '/', pos as int))),
            done ==> clean_segments(split_from(n@, '/', 0)) == Ok::<Seq<Seq<char>>, ZipPathIssue>(kept),
        decreases len - pos + (if done { 0int } else { 1int }),
    {
        let (seg_end, last) = match find_char_from(n.as_slice(), '/', pos) {
            Some(k) => (k, false),
            None => (len, true),
        };
        proof {
            lemma_find_from_bounds(n@, seq!['/'], pos as int);
        }
        let seg = slice_range(n.as_slice(), pos, seg_end);
        let ghost parts = split_from(n@, '/', pos as int);
        let ghost tail: Seq<Seq<char>> = if last { Seq::empty() } else { split_from(n@, '/', seg_end + 1) };
        proof {
            if last {
                assert(seg@ =~= n@.skip(pos as int));
                assert(parts =~= seq![seg@]);
            } else {
                assert(parts == seq![seg@] + split_from(n@, '/', seg_end + 1));
            }
            assert(parts[0] == seg@);
            assert(parts.drop_first() =~= tail);
        }
        if seg.len() == 0 || is_dot(seg.as_slice()) {
            assert(clean_segments(parts) == clean_segments(tail));
        } else if is_dot_dot(seg.as_slice()) {
            assert(clean_segments(parts) == Err::<Seq<Seq<char>>, ZipPathIssue>(ZipPathIssue::Traversal));
            return Err(DownloadError::InvalidArchive(message_with("ZIP 条目包含路径穿越: ", raw)));
        } else if has_control(seg.as_slice()) {
            assert(clean_segments(parts) == Err::<Seq<Seq<char>>, ZipPathIssue>(ZipPathIssue::Control));
            return Err(DownloadError::InvalidArchive(message_with("ZIP 条目包含非法字符: ", raw)));
        } else {
            proof {
                assert(kept.push(seg@).drop_last() =~= kept);
                match clean_segments(tail) {
                    Ok(rest) => {
                        assert(clean_segments(parts) == Ok::<Seq<Seq<char>>, ZipPathIssue>(seq![seg@] + rest));
                        assert(kept + (seq![seg@] + rest) =~= kept.push(seg@) + rest);
                    },
                    Err(e) => {
                        assert(clean_segments(parts) == Err::<Seq<Seq<char>>, ZipPathIssue>(e));
                    },
                }
            }
            if any {
                out.push('/');
            }
            push_all(&mut out, seg.as_slice());
            proof {
                if kept.len() == 0 {
                    assert(out@ =~= seg@);
                }
                kept = kept.push(seg@);
            }
            any = true;
        }
        if last {
            done = true;
            proof {
                assert(kept + Seq::<Seq<char>>::empty() =~= kept);
            }
        } else {
            pos = seg_end + 1;
        }
    }
    Ok(string_from_chars(out.as_slice()))
}


/// How a file in a model directory can serve as the model's entry.
#[derive(Debug, Clone, Copy, PartialEq, Eq, Structural)]
pub enum EntryKind {
    /// `*.model3.json` (Cubism 3).
    Cubism3,
    /// `*.model.json` (Cubism 2).
    Cubism2,
    /// A bare `model3.json` or `model.json`.
    Bare,
}

/// The entry kind of a file name (compared without ASCII case).
pub open spec fn entry_kind_spec(file_name: Seq<char>) -> Option<EntryKind> {
    let l = lower(file_name);
    if !has_suffix(l, ".json"@) {
        None
    } else if has_suffix(l, ".model3.json"@) {
        Some(EntryKind::Cubism3)
    } else if has_suffix(l, ".model.json"@) {
        Some(EntryKind::Cubism2)
    } else if l == "model3.json"@ || l == "model.json"@ {
        Some(EntryKind::Bare)
    } else {
        None
    }
}

/// Classifies a file found in a model directory.
pub fn entry_kind(file_name: &str) -> (r: Option<EntryKind>)
    ensures
        r == entry_kind_spec(file_name@),
{
    let f = str_chars(file_name);
    let l = to_lower(f.as_slice());
    let json = str_chars(".json");
    let m3 = str_chars(".model3.json");
    let m2 = str_chars(".model.json");
    let b3 = str_chars("model3.json");
    let b2 = str_chars("model.json");
    if !ends_with(l.as_slice(), json.as_slice()) {
        None
    } else if ends_with(l.as_slice(), m3.as_slice()) {
        Some(EntryKind::Cubism3)
    } else if ends_with(l.as_slice(), m2.as_slice()) {
        Some(EntryKind::Cubism2)
    } else if chars_eq(l.as_slice(), b3.as_slice()) || chars_eq(l.as_slice(), b2.as_slice()) {
        Some(EntryKind::Bare)
    } else {
        None
    }
}

/// The entry chosen among the candidates found (in walk order): the first
/// Cubism 3 file, else the first Cubism 2 file, else the first bare one.
pub open spec fn choose_entry_spec(c3: Seq<Seq<char>>, c2: Seq<Seq<char>>, bare: Seq<Seq<char>>) -> Option<Seq<char>> {
    if c3.len() > 0 {
        Some(slashes(c3[0]))
    } else if c2.len() > 0 {
        Some(slashes(c2[0]))
    } else if bare.len() > 0 {
        Some(slashes(bare[0]))
    } else {
        None
    }
}

pub open spec fn strings_view(v: Seq<String>) -> Seq<Seq<char>> {
    v.map_values(|s: String| s@)
}

pub(crate) fn forward_slashes(s: &str) -> (r: String)
    ensures
        r@ == slashes(s@),
{
    let v = str_chars(s);
    let mut n: Vec<char> = Vec::new();
    let mut i: usize = 0;
    while i < v.len()
        invariant
            i <= v@.len(),
            n@ == slashes(v@.take(i as int)),
        decreases v@.len() - i,
    {
        let c = if v[i] == '\\' { '/' } else { v[i] };
        n.push(c);
        i = i + 1;
        assert(n@ =~= slashes(v@.take(i as int)));
    }
    assert(v@.take(v@.len() as int) =~= v@);
    string_from_chars(n.as_slice())
}

/// Picks a model's entry file among the candidates (paths relative to the
/// model directory), with backslashes turned into slashes.
pub fn choose_entry(c3: &Vec<String>, c2: &Vec<String>, bare: &Vec<String>) -> (r: Option<String>)
    ensures
        match r {
            Some(e) => choose_entry_spec(strings_view(c3@), strings_view(c2@), strings_view(bare@)) == Some(e@),
            None => choose_entry_spec(strings_view(c3@), strings_view(c2@), strings_view(bare@)) is None,
        },
{
    if c3.len() > 0 {
        Some(forward_slashes(c3[0].as_str()))
    } else if c2.len() > 0 {
        Some(forward_slashes(c2[0].as_str()))
    } else if bare.len() > 0 {
        Some(forward_slashes(bare[0].as_str()))
    } else {
        None
    }
}

/// A file met while walking a model directory: its name, and its path
/// relative to the model directory.
pub struct WalkedFile {
    pub file_name: String,
    pub relative_path: String,
}

/// The relative paths of the walked files of one entry kind, in walk order.
pub open spec fn of_kind(files: Seq<WalkedFile>, k: EntryKind) -> Seq<Seq<char>>
    decreases files.len(),
{
    if files.len() == 0 {
        Seq::empty()
    } else {
        let r = of_kind(files.drop_last(), k);
        if entry_kind_spec(files.last().file_name@) == Some(k) { r.push(files.last().relative_path@) } else { r }
    }
}

/// Finds a model's entry among the files of its directory (walk order): the
/// first Cubism 3 entry, else the first Cubism 2 entry, else the first bare
/// one; its relative path with forward slashes.
pub fn find_entry_file(files: &Vec<WalkedFile>) -> (r: Option<String>)
    ensures
        match r {
            Some(e) => choose_entry_spec(of_kind(files@, EntryKind::Cubism3), of_kind(files@, EntryKind::Cubism2),
                of_kind(files@, EntryKind::Bare)) == Some(e@),
            None => choose_entry_spec(of_kind(files@, EntryKind::Cubism3), of_kind(files@, EntryKind::Cubism2),
                of_kind(files@, EntryKind::Bare)) is None,
        },
{
    let mut c3: Vec<String> = Vec::new();
    let mut c2: Vec<String> = Vec::new();
    let mut bare: Vec<String> = Vec::new();
    let mut i: usize = 0;
    while i < files.len()
        invariant
            i <= files@.len(),
            strings_view(c3@) == of_kind(files@.take(i as int), EntryKind::Cubism3),
            strings_view(c2@) == of_kind(files@.take(i as int), EntryKind::Cubism2),
            strings_view(bare@) == of_kind(files@.take(i as int), EntryKind::Bare),
        decreases files@.len() - i,
    {
        let f = &files[i];
        assert(files@.take(i as int + 1).drop_last() =~= files@.take(i as int));
        assert(files@.take(i as int + 1).last() == *f);
        let ghost (v3, v2, vb) = (strings_view(c3@), strings_view(c2@), strings_view(bare@));
        match entry_kind(f.file_name.as_str()) {
            Some(EntryKind::Cubism3) => {
                c3.push(f.relative_path.clone());
                assert(strings_view(c3@) =~= v3.push(f.relative_path@));
            },
            Some(EntryKind::Cubism2) => {
                c2.push(f.relative_path.clone());
                assert(strings_view(c2@) =~= v2.push(f.relative_path@));
            },
            Some(EntryKind::Bare) => {
                bare.push(f.relative_path.clone());
                assert(strings_view(bare@) =~= vb.push(f.relative_path@));
            },
            None => {},
        }
        i = i + 1;
    }
    assert(files@.take(files@.len() as int) =~= files@);
    choose_entry(&c3, &c2, &bare)
}

/// Checks that a directory (given by the files walked in it) holds a model
/// entry, and names it.
pub fn find_entry_in_dir(files: &Vec<WalkedFile>) -> (r: Option<String>)
    ensures
        match r {
            Some(e) => choose_entry_spec(of_kind(files@, EntryKind::Cubism3), of_kind(files@, EntryKind::Cubism2),
                of_kind(files@, EntryKind::Bare)) == Some(e@),
            None => choose_entry_spec(of_kind(files@, EntryKind::Cubism3), of_kind(files@, EntryKind::Cubism2),
                of_kind(files@, EntryKind::Bare)) is None,
        },
{
    find_entry_file(files)
}

/// The standard entry name and the model name that an entry file gives: a
/// bare entry keeps its name and takes the model directory's name (or
/// `live2d_model`); a prefixed one becomes `model3.json` / `model.json` and
/// gives its stem.
pub open spec fn entry_naming(entry_file_name: Seq<char>, dir_name: Option<Seq<char>>) -> Result<(Seq<char>, Seq<char>), Seq<char>> {
    let l = lower(entry_file_name);
    if l == "model3.json"@ || l == "model.json"@ {
        let std = if l == "model3.json"@ { "model3.json"@ } else { "model.json"@ };
        Ok((std, match dir_name { Some(d) => d, None => "live2d_model"@ }))
    } else if has_suffix(l, ".model3.json"@) {
        Ok(("model3.json"@, entry_file_name.take(entry_file_name.len() - 12)))
    } else if has_suffix(l, ".model.json"@) {
        Ok(("model.json"@, entry_file_name.take(entry_file_name.len() - 11)))
    } else {
        Err("无法识别的 Live2D 入口文件"@)
    }
}

/// Normalises an imported model's entry: the standard entry name and the
/// model's name.
pub fn entry_naming_of(entry_file_name: &str, dir_name: Option<String>) -> (r: Result<(String, String), String>)
    ensures
        match r {
            Ok((a, b)) => entry_naming(entry_file_name@, match dir_name { Some(d) => Some(d@), None => None })
                == Ok::<(Seq<char>, Seq<char>), Seq<char>>((a@, b@)),
            Err(e) => entry_naming(entry_file_name@, match dir_name { Some(d) => Some(d@), None => None })
                == Err::<(Seq<char>, Seq<char>), Seq<char>>(e@),
        },
{
    let f = str_chars(entry_file_name);
    let l = to_lower(f.as_slice());
    let b3 = str_chars("model3.json");
    let b2 = str_chars("model.json");
    let m3 = str_chars(".model3.json");
    let m2 = str_chars(".model.json");
    proof {
        reveal_strlit(".model3.json");
        reveal_strlit(".model.json");
    }
    if chars_eq(l.as_slice(), b3.as_slice()) || chars_eq(l.as_slice(), b2.as_slice()) {
        let std = if chars_eq(l.as_slice(), b3.as_slice()) { "model3.json".to_string() } else { "model.json".to_string() };
        let name = match dir_name {
            Some(d) => d,
            None => "live2d_model".to_string(),
        };
        Ok((std, name))
    } else if ends_with(l.as_slice(), m3.as_slice()) {
        let stem = slice_range(f.as_slice(), 0, f.len() - 12);
        assert(stem@ =~= f@.take(f@.len() - 12));
        Ok(("model3.json".to_string(), string_from_chars(stem.as_slice())))
    } else if ends_with(l.as_slice(), m2.as_slice()) {
        let stem = slice_range(f.as_slice(), 0, f.len() - 11);
        assert(stem@ =~= f@.take(f@.len() - 11));
        Ok(("model.json".to_string(), string_from_chars(stem.as_slice())))
    } else {
        Err("无法识别的 Live2D 入口文件".to_string())
    }
}

/// The `k`-th name tried for an imported model: the stem itself first, then
/// `stem-2`, `stem-3`, ...
pub open spec fn model_candidate(stem: Seq<char>, k: nat) -> Seq<char> {
    if k <= 1 {
        stem
    } else {
        stem + "-"@ + decimal(k)
    }
}

/// Two different tries give two different names.
pub proof fn lemma_candidates_differ(stem: Seq<char>, j: nat, k: nat)
    requires
        1 <= j,
        1 <= k,
        j != k,
    ensures
        model_candidate(stem, j) != model_candidate(stem, k),
{
    reveal_strlit("-");
    lemma_decimal(j);
    lemma_decimal(k);
    if j >= 2 && k >= 2 {
        let a = model_candidate(stem, j);
        let b = model_candidate(stem, k);
        if a == b {
            assert(a.skip(stem.len() + 1int) =~= decimal(j));
            assert(b.skip(stem.len() + 1int) =~= decimal(k));
        }
    } else if j >= 2 {
        assert(model_candidate(stem, j).len() > stem.len());
    } else {
        assert(model_candidate(stem, k).len() > stem.len());
    }
}

/// When the first `k` names are all taken, at least `k` names are taken.
proof fn lemma_taken_count(stem: Seq<char>, taken: Seq<Seq<char>>, k: nat)
    requires
        forall|j: nat| 1 <= j <= k ==> taken.contains(#[trigger] model_candidate(stem, j)),
    ensures
        k <= taken.len(),
{
    let tried = Seq::new(k, |i: int| model_candidate(stem, (i + 1) as nat));
    assert forall|a: int, b: int| 0 <= a < tried.len() && 0 <= b < tried.len() && a != b implies tried[a] != tried[b] by {
        lemma_candidates_differ(stem, (a + 1) as nat, (b + 1) as nat);
    }
    assert(tried.no_duplicates());
    tried.unique_seq_to_set();
    taken.lemma_cardinality_of_set();
    assert forall|x: Seq<char>| tried.to_set().contains(x) implies taken.to_set().contains(x) by {
        let i = choose|i: int| 0 <= i < tried.len() && tried[i] == x;
        assert(taken.contains(model_candidate(stem, (i + 1) as nat)));
    }
    vstd::set_lib::lemma_len_subset(tried.to_set(), taken.to_set());
}

/// Whether one of the strings is `s`.
fn holds_name(names: &Vec<String>, s: &[char]) -> (b: bool)
    ensures
        b == strings_view(names@).contains(s@),
{
    let mut i: usize = 0;
    while i < names.len()
        invariant
            i <= names@.len(),
            forall|j: int| 0 <= j < i ==> names@[j]@ != s@,
        decreases names@.len() - i,
    {
        let c = str_chars(names[i].as_str());
        if chars_eq(c.as_slice(), s) {
            assert(strings_view(names@)[i as int] == s@);
            return true;
        }
        i = i + 1;
    }
    proof {
        if strings_view(names@).contains(s@) {
            let j = choose|j: int| 0 <= j < strings_view(names@).len() && strings_view(names@)[j] == s@;
            assert(names@[j]@ == s@);
        }
    }
    false
}

/// The name an imported model is installed under, so that no installed model
/// is overwritten: the first of `stem`, `stem-2`, `stem-3`, ... that is not
/// among the `taken` names (those of the models already installed).
pub fn free_model_name(stem: &str, taken: &Vec<String>) -> (r: String)
    requires
        taken@.len() < usize::MAX,
    ensures
        exists|k: nat| 1 <= k && r@ == #[trigger] model_candidate(stem@, k)
            && !strings_view(taken@).contains(r@)
            && forall|j: nat| 1 <= j < k ==> strings_view(taken@).contains(#[trigger] model_candidate(stem@, j)),
{
    let base = str_chars(stem);
    let mut k: usize = 1;
    let mut name: Vec<char> = base.clone();
    proof {
        assert(name@ == model_candidate(stem@, 1));
    }
    while holds_name(taken, name.as_slice())
        invariant
            1 <= k <= taken@.len() + 1,
            base@ == stem@,
            name@ == model_candidate(stem@, k as nat),
            forall|j: nat| 1 <= j < k ==> strings_view(taken@).contains(#[trigger] model_candidate(stem@, j)),
            taken@.len() < usize::MAX,
        decreases taken@.len() + 1 - k,
    {
        proof {
            assert forall|j: nat| 1 <= j <= k implies strings_view(taken@).contains(#[trigger] model_candidate(stem@, j)) by {}
            lemma_taken_count(stem@, strings_view(taken@), k as nat);
        }
        k = k + 1;
        let mut next: Vec<char> = base.clone();
        next.push('-');
        let d = u64_decimal(k as u64);
        push_all(&mut next, d.as_slice());
        proof {
            reveal_strlit("-");
            assert(next@ =~= model_candidate(stem@, k as nat));
        }
        name = next;
    }
    string_from_chars(name.as_slice())
}

/// The image extensions a model cover may have.
pub open spec fn is_cover_ext(e: Seq<char>) -> bool {
    e == "png"@ || e == "jpg"@ || e == "jpeg"@ || e == "gif"@ || e == "webp"@ || e == "bmp"@
}

/// Checks a cover image's extension, giving it in lower case.
pub fn cover_extension(ext: Option<&str>) -> (r: Result<String, String>)
    ensures
        match r {
            Ok(e) => ext matches Some(x) && e@ == lower(x@) && is_cover_ext(e@),
            Err(m) => m@ == "仅支持 png/jpg/gif/webp/bmp 图片"@
                && !(ext matches Some(x) && is_cover_ext(lower(x@))),
        },
{
    let x = match ext {
        Some(x) => x,
        None => return Err("仅支持 png/jpg/gif/webp/bmp 图片".to_string()),
    };
    let l = to_lower(str_chars(x).as_slice());
    let a = str_chars("png");
    let b = str_chars("jpg");
    let c = str_chars("jpeg");
    let d = str_chars("gif");
    let e = str_chars("webp");
    let f = str_chars("bmp");
    if chars_eq(l.as_slice(), a.as_slice()) || chars_eq(l.as_slice(), b.as_slice())
        || chars_eq(l.as_slice(), c.as_slice()) || chars_eq(l.as_slice(), d.as_slice())
        || chars_eq(l.as_slice(), e.as_slice()) || chars_eq(l.as_slice(), f.as_slice()) {
        Ok(string_from_chars(l.as_slice()))
    } else {
        Err("仅支持 png/jpg/gif/webp/bmp 图片".to_string())
    }
}

/// Whether a Unix file mode (as an archive entry records it) is that of a
/// symbolic link; entries without a recorded mode are not links.
pub fn is_symlink_mode(mode: Option<u32>) -> (b: bool)
    ensures
        b == (mode matches Some(m) && (m & 0o170000u32) == 0o120000u32),
{
    match mode {
        Some(m) => (m & 0o170000u32) == 0o120000u32,
        None => false,
    }
}

/// What extracting an archive entry does.
pub enum ZipEntryAction {
    /// Nothing (the entry's path is empty once cleaned).
    Skip,
    /// Creates this directory (relative to the target).
    MakeDir(String),
    /// Writes the entry's content to this file (relative to the target).
    WriteFile(String),
}

/// The message for an archive entry that is a symbolic link.
pub open spec fn symlink_message(raw: Seq<char>) -> Seq<char> {
    "ZIP 包包含不允许的符号链接: "@ + raw
}

/// Decides what to do with an archive entry, from its recorded name, whether
/// it is a directory and its Unix mode: its path is cleaned (see
/// [`sanitize_zip_path`]) and refused when unsafe; an empty path is skipped;
/// a directory is created; a symbolic link is refused; anything else is
/// written as a file.
pub fn zip_entry_action(raw_name: &str, is_dir: bool, unix_mode: Option<u32>) -> (r: Result<ZipEntryAction, DownloadError>)
    ensures
        match zip_path(raw_name@) {
            Err(issue) => r matches Err(DownloadError::InvalidArchive(m)) && m@ == zip_issue_message(issue, raw_name@),
            Ok(p) => if p.len() == 0 {
                r matches Ok(ZipEntryAction::Skip)
            } else if is_dir {
                r matches Ok(ZipEntryAction::MakeDir(d)) && d@ == p
            } else if unix_mode matches Some(m) && (m & 0o170000u32) == 0o120000u32 {
                r matches Err(DownloadError::InvalidArchive(m)) && m@ == symlink_message(raw_name@)
            } else {
                r matches Ok(ZipEntryAction::WriteFile(f)) && f@ == p
            },
        },
{
    let name = match sanitize_zip_path(raw_name) {
        Ok(n) => n,
        Err(e) => return Err(e),
    };
    if str_chars(name.as_str()).len() == 0 {
        return Ok(ZipEntryAction::Skip);
    }
    if is_dir {
        return Ok(ZipEntryAction::MakeDir(name));
    }
    if is_symlink_mode(unix_mode) {
        return Err(DownloadError::InvalidArchive(message_with("ZIP 包包含不允许的符号链接: ", raw_name)));
    }
    Ok(ZipEntryAction::WriteFile(name))
}

/// The message for an archive entry whose directory lies outside the target.
pub open spec fn outside_message(raw: Seq<char>) -> Seq<char> {
    "ZIP 条目超出目标目录: "@ + raw
}

/// Checks that the directory an entry is written into, once resolved, lies
/// inside the resolved target: the target's path components are a prefix of
/// the directory's. This keeps links already on disk from leading outside.
pub fn check_inside(parent: &Vec<String>, target: &Vec<String>, raw_name: &str) -> (r: Result<(), DownloadError>)
    ensures
        strings_view(target@).len() <= strings_view(parent@).len()
            && strings_view(parent@).take(target@.len() as int) == strings_view(target@) ==> r is Ok,
        !(strings_view(target@).len() <= strings_view(parent@).len()
            && strings_view(parent@).take(target@.len() as int) == strings_view(target@))
            ==> (r matches Err(DownloadError::InvalidArchive(m)) && m@ == outside_message(raw_name@)),
{
    let mut inside = target.len() <= parent.len();
    let mut i: usize = 0;
    while inside && i < target.len()
        invariant
            i <= target@.len(),
            inside ==> target@.len() <= parent@.len(),
            inside ==> forall|j: int| 0 <= j < i ==> parent@[j]@ == target@[j]@,
            !inside ==> !(target@.len() <= parent@.len()
                && strings_view(parent@).take(target@.len() as int) == strings_view(target@)),
        decreases target@.len() - i,
    {
        let a = str_chars(parent[i].as_str());
        let b = str_chars(target[i].as_str());
        if !chars_eq(a.as_slice(), b.as_slice()) {
            inside = false;
            proof {
                assert(strings_view(parent@).take(target@.len() as int)[i as int] == parent@[i as int]@);
                assert(strings_view(target@)[i as int] == target@[i as int]@);
            }
        }
        i = i + 1;
    }
    if inside {
        assert(strings_view(parent@).take(target@.len() as int) =~= strings_view(target@));
        Ok(())
    } else {
        Err(DownloadError::InvalidArchive(message_with("ZIP 条目超出目标目录: ", raw_name)))
    }
}

/// The indexed names with no installed model on disk, in index order.
pub open spec fn stale_names(indexed: Seq<Seq<char>>, disk: Seq<Seq<char>>) -> Seq<Seq<char>>
    decreases indexed.len(),
{
    if indexed.len() == 0 {
        Seq::empty()
    } else {
        let r = stale_names(indexed.drop_last(), disk);
        if disk.contains(indexed.last()) { r } else { r.push(indexed.last()) }
    }
}

/// The index entries to drop when the index is reconciled with the disk:
/// those whose model is no longer installed.
pub fn stale_index_entries(indexed: &Vec<String>, disk: &Vec<String>) -> (r: Vec<String>)
    ensures
        strings_view(r@) == stale_names(strings_view(indexed@), strings_view(disk@)),
{
    let ghost dv = strings_view(disk@);
    let mut out: Vec<String> = Vec::new();
    let mut i: usize = 0;
    while i < indexed.len()
        invariant
            i <= indexed@.len(),
            dv == strings_view(disk@),
            strings_view(out@) == stale_names(strings_view(indexed@.take(i as int)), dv),
        decreases indexed@.len() - i,
    {
        let name = str_chars(indexed[i].as_str());
        let mut found = false;
        let mut j: usize = 0;
        while j < disk.len()
            invariant
                j <= disk@.len(),
                dv == strings_view(disk@),
                found == exists|k: int| 0 <= k < j && dv[k] == name@,
            decreases disk@.len() - j,
        {
            assert(dv[j as int] == disk@[j as int]@);
            if chars_eq(str_chars(disk[j].as_str()).as_slice(), name.as_slice()) {
                found = true;
            }
            j = j + 1;
        }
        assert(strings_view(indexed@.take(i as int + 1)) =~= strings_view(indexed@.take(i as int)).push(indexed@[i as int]@));
        assert(strings_view(indexed@.take(i as int + 1)).drop_last() =~= strings_view(indexed@.take(i as int)));
        let ghost prev = strings_view(out@);
        if !found {
            out.push(indexed[i].clone());
            assert(strings_view(out@) =~= prev.push(name@));
        }
        i = i + 1;
    }
    assert(indexed@.take(indexed@.len() as int) =~= indexed@);
    out
}

/// An installed resource as listed to the front end.
pub struct ResourceSummary {
    pub name: String,
    pub size: u64,
    /// Entry file, relative to the model directory.
    pub entry_file: Option<String>,
    /// Whether the model came from the official download (not a user import).
    pub is_official: bool,
}

/// An imported model as reported to the front end.
pub struct ImportedResource {
    pub name: String,
    pub size: u64,
    pub entry_file: Option<String>,
}

/// An indexed resource (metadata kept in the database).
pub struct IndexedResource {
    pub name: String,
    pub is_official: bool,
    pub entry_file: Option<String>,
    pub size: u64,
}

/// An installed resource on disk.
pub struct ResourceInfo {
    pub name: String,
    pub resource_type: ResourceType,
    /// Where the resource lives.
    pub path: String,
    /// Total size in bytes.
    pub size: u64,
    /// Entry file, relative to the resource directory.
    pub entry_file: Option<String>,
}

} // verus!

verus! {

/// A file named `model3.json` or `model.json` (in any ASCII case) is a bare
/// model entry; one whose name ends in `.model3.json` / `.model.json` (in any
/// ASCII case) is a Cubism 3 / Cubism 2 entry.
pub proof fn lemma_entry_names(file_name: Seq<char>)
    ensures
        (lower(file_name) == "model3.json"@ || lower(file_name) == "model.json"@)
            ==> entry_kind_spec(file_name) == Some(EntryKind::Bare),
        has_suffix(lower(file_name), ".model3.json"@) ==> entry_kind_spec(file_name) == Some(EntryKind::Cubism3),
        has_suffix(lower(file_name), ".model.json"@) ==> entry_kind_spec(file_name) == Some(EntryKind::Cubism2),
{
    reveal_strlit("model3.json");
    reveal_strlit("model.json");
    reveal_strlit(".model3.json");
    reveal_strlit(".model.json");
    reveal_strlit(".json");
    let l = lower(file_name);
    if l == "model3.json"@ || l == "model.json"@ {
        assert(l.skip(l.len() - 5) =~= ".json"@);
        assert(!has_suffix(l, ".model3.json"@));
        if l == "model3.json"@ {
            assert(l.skip(0) =~= l);
            assert(l.skip(l.len() - 11)[0] == 'm');
            assert(!has_suffix(l, ".model.json"@));
        } else {
            assert(!has_suffix(l, ".model.json"@));
        }
    }
    if has_suffix(l, ".model3.json"@) {
        assert(l.skip(l.len() - 5) =~= l.skip(l.len() - 12).skip(7));
        assert(".model3.json"@.skip(7) =~= ".json"@);
    }
    if has_suffix(l, ".model.json"@) {
        assert(l.skip(l.len() - 5) =~= l.skip(l.len() - 11).skip(6));
        assert(".model.json"@.skip(6) =~= ".json"@);
        if has_suffix(l, ".model3.json"@) {
            assert(l.skip(l.len() - 11) =~= l.skip(l.len() - 12).skip(1));
            assert(".model3.json"@.skip(1)[0] == 'm');
            assert(".model.json"@[0] == '.');
        }
    }
}

/// The files of a model directory that are entries of a kind, in walk order.
proof fn lemma_of_kind_has(files: Seq<WalkedFile>, i: int, k: EntryKind)
    requires
        0 <= i < files.len(),
        entry_kind_spec(files[i].file_name@) == Some(k),
    ensures
        of_kind(files, k).len() > 0,
    decreases files.len(),
{
    if i < files.len() - 1 {
        assert(files.drop_last()[i] == files[i]);
        lemma_of_kind_has(files.drop_last(), i, k);
    }
}

/// A model directory with a file named `model3.json` or `model.json` (any
/// ASCII case) has an entry: the walk finds one.
pub proof fn lemma_bare_entry_found(files: Seq<WalkedFile>, i: int)
    requires
        0 <= i < files.len(),
        lower(files[i].file_name@) == "model3.json"@ || lower(files[i].file_name@) == "model.json"@,
    ensures
        choose_entry_spec(of_kind(files, EntryKind::Cubism3), of_kind(files, EntryKind::Cubism2),
            of_kind(files, EntryKind::Bare)) is Some,
{
    lemma_entry_names(files[i].file_name@);
    lemma_of_kind_has(files, i, EntryKind::Bare);
}

} // verus!

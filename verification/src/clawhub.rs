//! ClawHub: the records its API returns, `SKILL.md` frontmatter parsing, and
//! percent-encoding of path segments.

use vstd::prelude::*;
use vstd::string::StringSliceAdditionalSpecFns;
use crate::compression::{strip_lead, strip_trail};
use crate::text::{
    chars_of, find, find_chars, has_prefix, lines, lines_chars, parse_u64, parse_u64_chars,
    push_char, slice_chars,
    starts_with, string_of, trim, trim_chars, views,
};

verus! {

/// Latest version of a skill.
#[derive(Debug, Clone)]
pub struct SkillLatestVersion {
    pub version: String,
    pub created_at: u64,
    pub changelog: String,
    pub license: Option<String>,
}

/// Owner of a skill.
#[derive(Debug, Clone)]
pub struct Owner {
    pub handle: Option<String>,
    pub display_name: Option<String>,
    pub image: Option<String>,
}

/// Security review of a skill.
#[derive(Debug, Clone)]
pub struct Moderation {
    pub is_suspicious: bool,
    pub is_malware_blocked: bool,
    pub verdict: Option<String>,
    pub reason_codes: Vec<String>,
    pub summary: Option<String>,
    pub engine_version: Option<String>,
    pub updated_at: Option<u64>,
}

/// What `parse_skill_md` finds in a `SKILL.md`.
#[derive(Debug, Clone)]
pub struct ParsedSkillMd {
    pub name: String,
    pub description: String,
    pub version: String,
    /// The whole file.
    pub preamble: String,
    /// The file without its frontmatter (the whole file when it has none).
    pub body: String,
}

/// What a `SKILL.md` holds, as the contracts see it.
pub struct SkillMdModel {
    pub name: Seq<char>,
    pub description: Seq<char>,
    pub version: Seq<char>,
    pub preamble: Seq<char>,
    pub body: Seq<char>,
}

impl View for ParsedSkillMd {
    type V = SkillMdModel;

    open spec fn view(&self) -> SkillMdModel {
        SkillMdModel {
            name: self.name@,
            description: self.description@,
            version: self.version@,
            preamble: self.preamble@,
            body: self.body@,
        }
    }
}

/// What `parse_skill_md` finds: without a frontmatter, empty fields and the
/// whole file as body; with one, each key's value from the last line that
/// sets it, and the text after the frontmatter as body.
pub open spec fn skill_md(content: Seq<char>) -> SkillMdModel {
    match frontmatter_end(content) {
        None => SkillMdModel {
            name: Seq::empty(),
            description: Seq::empty(),
            version: Seq::empty(),
            preamble: content,
            body: content,
        },
        Some(e) => {
            let after = content.subrange(3, content.len() as int);
            let ls = lines(after.subrange(0, e));
            SkillMdModel {
                name: field_value(ls, "name:"@),
                description: field_value(ls, "description:"@),
                version: field_value(ls, "version:"@),
                preamble: content,
                body: body_after(after.subrange(e + 4, after.len() as int)),
            }
        },
    }
}

/// A frontmatter value: trimmed, then without surrounding `"` and then `'`.
pub open spec fn field_text(rest: Seq<char>) -> Seq<char> {
    strip_trail(strip_lead(strip_trail(strip_lead(trim(rest), '"'), '"'), '\''), '\'')
}

/// The value of the last line of `ls` that, trimmed, starts with `key`;
/// empty when there is none.
pub open spec fn field_value(ls: Seq<Seq<char>>, key: Seq<char>) -> Seq<char>
    decreases ls.len(),
{
    if ls.len() == 0 {
        Seq::empty()
    } else {
        let t = trim(ls.last());
        if starts_with(t, key) {
            field_text(t.subrange(key.len() as int, t.len() as int))
        } else {
            field_value(ls.drop_last(), key)
        }
    }
}

/// The text between the opening `---` and the first `\n---` after it, when
/// the file has a frontmatter.
pub open spec fn frontmatter_end(content: Seq<char>) -> Option<int> {
    if starts_with(content, "---"@) {
        match find(content.subrange(3, content.len() as int), "\n---"@) {
            Some(e) => Some(e),
            None => None,
        }
    } else {
        None
    }
}

/// The body after the closing `\n---`, without one following line break.
pub open spec fn body_after(rest: Seq<char>) -> Seq<char> {
    if starts_with(rest, "\n"@) {
        rest.subrange(1, rest.len() as int)
    } else if starts_with(rest, "\r\n"@) {
        rest.subrange(2, rest.len() as int)
    } else {
        rest
    }
}

fn strip_lead_vec(s: &[char], c: char) -> (v: Vec<char>)
    ensures
        v@ == strip_lead(s@, c),
{
    let mut i: usize = 0;
    assert(s@.subrange(0, s@.len() as int) =~= s@);
    while i < s.len() && s[i] == c
        invariant
            i <= s.len(),
            strip_lead(s@.subrange(i as int, s@.len() as int), c) == strip_lead(s@, c),
        decreases s.len() - i,
    {
        proof {
            crate::text::lemma_suffix_step(s@, i as int);
        }
        i = i + 1;
    }
    if i < s.len() {
        proof {
            crate::text::lemma_suffix_step(s@, i as int);
        }
    }
    slice_chars(s, i, s.len())
}

fn strip_trail_vec(s: &[char], c: char) -> (v: Vec<char>)
    ensures
        v@ == strip_trail(s@, c),
{
    let mut j: usize = s.len();
    assert(s@.subrange(0, s@.len() as int) =~= s@);
    while j > 0 && s[j - 1] == c
        invariant
            j <= s.len(),
            strip_trail(s@.subrange(0, j as int), c) == strip_trail(s@, c),
        decreases j,
    {
        assert(s@.subrange(0, j as int).drop_last() =~= s@.subrange(0, j - 1));
        j = j - 1;
    }
    slice_chars(s, 0, j)
}

fn field_string(rest: &[char]) -> (r: String)
    ensures
        r@ == field_text(rest@),
{
    let t = trim_chars(rest);
    let a = strip_lead_vec(&t, '"');
    let b = strip_trail_vec(&a, '"');
    let c = strip_lead_vec(&b, '\'');
    let d = strip_trail_vec(&c, '\'');
    string_of(&d)
}

/// If the trimmed line `t` starts with `key`, the value after it.
fn keyed_value(t: &[char], key: &str) -> (r: Option<String>)
    ensures
        r matches Some(v) ==> starts_with(t@, key@) && v@ == field_text(
            t@.subrange(key@.len() as int, t@.len() as int),
        ),
        r is None ==> !starts_with(t@, key@),
{
    let k = chars_of(key);
    if has_prefix(t, &k) {
        let rest = slice_chars(t, k.len(), t.len());
        Some(field_string(&rest))
    } else {
        None
    }
}

/// Reads the `name`, `description` and `version` of a `SKILL.md` frontmatter
/// (`---` at the very start, up to the first `\n---`): for each key the last
/// line that, trimmed, starts with `key:` gives the value. The whole file is
/// the preamble; the body is the text after the frontmatter without one
/// leading line break. Without a frontmatter the fields are empty and the body
/// is the whole file.
pub fn parse_skill_md(content: &str) -> (p: ParsedSkillMd)
    ensures
        p@ == skill_md(content@),
{
    let cs = chars_of(content);
    let dashes = chars_of("---");
    let close = chars_of("\n---");
    proof {
        reveal_strlit("---");
        reveal_strlit("\n---");
        reveal_strlit("\n");
        reveal_strlit("\r\n");
    }
    if !has_prefix(&cs, &dashes) {
        return ParsedSkillMd {
            name: String::new(),
            description: String::new(),
            version: String::new(),
            preamble: content.to_string(),
            body: content.to_string(),
        };
    }
    let after = slice_chars(&cs, 3, cs.len());
    let end = match find_chars(&after, &close, 0) {
        Some(e) => e,
        None => {
            return ParsedSkillMd {
                name: String::new(),
                description: String::new(),
                version: String::new(),
                preamble: content.to_string(),
                body: content.to_string(),
            };
        },
    };
    let yaml = slice_chars(&after, 0, end);
    let ls = lines_chars(&yaml);
    let ghost lv = views(ls@);
    let mut name = String::new();
    let mut description = String::new();
    let mut version = String::new();
    let mut k: usize = 0;
    while k < ls.len()
        invariant
            k <= ls.len(),
            lv == views(ls@),
            lv.len() == ls@.len(),
            name@ == field_value(lv.subrange(0, k as int), "name:"@),
            description@ == field_value(lv.subrange(0, k as int), "description:"@),
            version@ == field_value(lv.subrange(0, k as int), "version:"@),
        decreases ls.len() - k,
    {
        let t = trim_chars(&ls[k]);
        let ghost pre = lv.subrange(0, k as int);
        assert(lv.subrange(0, k + 1).drop_last() =~= pre);
        assert(lv.subrange(0, k + 1).last() == ls@[k as int]@);
        match keyed_value(&t, "name:") {
            Some(v) => {
                name = v;
            },
            None => {},
        }
        match keyed_value(&t, "description:") {
            Some(v) => {
                description = v;
            },
            None => {},
        }
        match keyed_value(&t, "version:") {
            Some(v) => {
                version = v;
            },
            None => {},
        }
        k = k + 1;
    }
    assert(lv.subrange(0, lv.len() as int) =~= lv);
    let rest = slice_chars(&after, end + 4, after.len());
    let nl = chars_of("\n");
    let crlf = chars_of("\r\n");
    let body = if has_prefix(&rest, &nl) {
        slice_chars(&rest, 1, rest.len())
    } else if has_prefix(&rest, &crlf) {
        slice_chars(&rest, 2, rest.len())
    } else {
        slice_chars(&rest, 0, rest.len())
    };
    assert(rest@.subrange(0, rest@.len() as int) =~= rest@);
    ParsedSkillMd {
        name,
        description,
        version,
        preamble: content.to_string(),
        body: string_of(&body),
    }
}

} // verus!

verus! {

/// Bytes that stay as they are: ASCII letters and digits, `-`, `_`, `.`, `~`.
pub open spec fn url_safe(b: u8) -> bool {
    (0x30 <= b <= 0x39) || (0x41 <= b <= 0x5A) || (0x61 <= b <= 0x7A) || b == 0x2D || b
        == 0x5F || b == 0x2E || b == 0x7E
}

/// Upper-case hexadecimal digit of `d < 16`.
pub open spec fn hex_digit(d: u8) -> char {
    "0123456789ABCDEF"@[d as int]
}

/// One byte, encoded: itself when safe, else `%` and two upper-case hex digits.
pub open spec fn encode_byte(b: u8) -> Seq<char> {
    if url_safe(b) {
        seq![b as char]
    } else {
        seq!['%', hex_digit(b / 16), hex_digit(b % 16)]
    }
}

/// Percent-encoding of a byte sequence.
pub open spec fn url_encoded(bytes: Seq<u8>) -> Seq<char>
    decreases bytes.len(),
{
    if bytes.len() == 0 {
        Seq::empty()
    } else {
        url_encoded(bytes.drop_last()) + encode_byte(bytes.last())
    }
}

/// Percent-encodes the UTF-8 bytes of `s` for use as one URL path segment.
pub fn urlencoding_encode(s: &str) -> (r: String)
    ensures
        r@ == url_encoded(s.spec_bytes()),
{
    let bytes = s.as_bytes();
    let hex = chars_of("0123456789ABCDEF");
    proof {
        reveal_strlit("0123456789ABCDEF");
    }
    let mut out = String::new();
    let mut i: usize = 0;
    while i < bytes.len()
        invariant
            i <= bytes.len(),
            bytes@ == s.spec_bytes(),
            hex@ == "0123456789ABCDEF"@,
            hex@.len() == 16,
            out@ == url_encoded(bytes@.subrange(0, i as int)),
        decreases bytes.len() - i,
    {
        let b = bytes[i];
        let ghost before = out@;
        assert(bytes@.subrange(0, i + 1).drop_last() =~= bytes@.subrange(0, i as int));
        if (0x30 <= b && b <= 0x39) || (0x41 <= b && b <= 0x5A) || (0x61 <= b && b <= 0x7A) || b
            == 0x2D || b == 0x5F || b == 0x2E || b == 0x7E {
            push_char(&mut out, b as char);
        } else {
            push_char(&mut out, '%');
            push_char(&mut out, hex[(b / 16) as usize]);
            push_char(&mut out, hex[(b % 16) as usize]);
        }
        assert(out@ =~= before + encode_byte(b));
        i = i + 1;
    }
    assert(bytes@.subrange(0, bytes@.len() as int) =~= bytes@);
    out
}

/// How a ClawHub reply is taken.
#[derive(Debug, Clone, Copy, PartialEq, Eq, Structural)]
pub enum ReplyCheck {
    /// A 2xx status: the body is read.
    Success,
    /// Status 429, with the `Retry-After` seconds when the header is a number.
    RateLimited { retry_after: Option<u64> },
    /// Any other status: an API error carrying the status and body.
    Api { status: u16 },
}

/// Classifies a reply by its status and `Retry-After` header.
pub fn check_reply(status: u16, retry_after: Option<&str>) -> (r: ReplyCheck)
    ensures
        200 <= status < 300 ==> r == ReplyCheck::Success,
        status == 429 ==> r == (ReplyCheck::RateLimited {
            retry_after: match retry_after {
                Some(h) => parse_u64(h@),
                None => None,
            },
        }),
        !(200 <= status < 300) && status != 429 ==> r == (ReplyCheck::Api { status }),
{
    if 200 <= status && status < 300 {
        ReplyCheck::Success
    } else if status == 429 {
        let retry_after = match retry_after {
            Some(h) => {
                let cs = chars_of(h);
                parse_u64_chars(&cs)
            },
            None => None,
        };
        ReplyCheck::RateLimited { retry_after }
    } else {
        ReplyCheck::Api { status }
    }
}

} // verus!

verus! {

/// Kind of one component of a path, as `std::path::Path::components` gives it.
#[derive(Debug, Clone, Copy, PartialEq, Eq, Structural)]
pub enum PathPart {
    /// A Windows prefix such as `C:` or `\\server\share`.
    Prefix,
    /// The root separator of an absolute path.
    Root,
    /// A leading `.`.
    Current,
    /// A `..`.
    Parent,
    /// Any other name.
    Normal,
}

/// A `/`-separated segment of `s` is `..`.
pub open spec fn has_dotdot_segment(s: Seq<char>) -> bool {
    exists|i: int|
        0 <= i && i + 2 <= s.len() && #[trigger] s[i] == '.' && s[i + 1] == '.' && (i == 0 || s[i - 1]
            == '/') && (i + 2 == s.len() || s[i + 2] == '/')
}

/// `s` starts with `/`.
pub open spec fn rooted(s: Seq<char>) -> bool {
    s.len() > 0 && s[0] == '/'
}

/// A name that no platform reads as leaving its directory: it does not
/// start with `/`, has no `..` segment, and holds neither `\` (a Windows
/// separator) nor `:` (a Windows drive prefix).
pub open spec fn plain_relative(s: Seq<char>) -> bool {
    !rooted(s) && !has_dotdot_segment(s) && !s.contains('\\') && !s.contains(':')
}

/// `std::path::Path::new(name).components()`, each component reduced to its
/// kind. How a name splits depends on the platform (Unix knows only `/` as a
/// separator and has no prefixes; Windows also splits on `\` and reads drive
/// and UNC prefixes). What holds on every platform is stated: `/` separates
/// components on both, so a name that starts with `/` yields a root (or, on
/// Windows, a prefix such as `//server/share`), and a `/`-separated `..`
/// segment yields a parent component (or lies inside a verbatim prefix).
/// Conversely a name with neither, and with no `\` and no `:`, has no
/// prefix, no root and no parent component on either platform: only `/`
/// separates it, every prefix form needs a `\`, a leading separator or a
/// `:`, and its only `..` pieces would be `/`-separated segments. Nothing
/// else of the split is stated.
#[verifier::external_body]
fn path_parts(name: &str) -> (r: Vec<PathPart>)
    ensures
        rooted(name@) || has_dotdot_segment(name@) ==> escapes(r@),
        plain_relative(name@) ==> !escapes(r@),
{
    let mut v = Vec::new();
    for c in std::path::Path::new(name).components() {
        v.push(match c {
            std::path::Component::Prefix(_) => PathPart::Prefix,
            std::path::Component::RootDir => PathPart::Root,
            std::path::Component::CurDir => PathPart::Current,
            std::path::Component::ParentDir => PathPart::Parent,
            std::path::Component::Normal(_) => PathPart::Normal,
        });
    }
    v
}

/// A path with these components leaves the directory it is joined to: one
/// of them is `..`, a root or a prefix.
pub open spec fn escapes(parts: Seq<PathPart>) -> bool {
    exists|i: int|
        0 <= i < parts.len() && (#[trigger] parts[i] == PathPart::Parent || parts[i] == PathPart::Root
            || parts[i] == PathPart::Prefix)
}

/// The refusal of an archive entry whose name leaves the target directory.
pub open spec fn entry_refusal(name: Seq<char>) -> Seq<char> {
    "zip entry 路径越权（含 `..` 或绝对路径）："@ + name
}

/// Checks an archive entry `name` whose path components are `parts`: refused,
/// with its message, when the components leave the target directory.
pub fn check_entry_parts(name: &str, parts: &Vec<PathPart>) -> (r: Result<(), String>)
    ensures
        r is Err <==> escapes(parts@),
        r matches Err(m) ==> m@ == entry_refusal(name@),
{
    let mut i: usize = 0;
    while i < parts.len()
        invariant
            i <= parts.len(),
            forall|j: int|
                0 <= j < i ==> !(#[trigger] parts@[j] == PathPart::Parent || parts@[j] == PathPart::Root
                    || parts@[j] == PathPart::Prefix),
        decreases parts.len() - i,
    {
        let p = parts[i];
        if p == PathPart::Parent || p == PathPart::Root || p == PathPart::Prefix {
            let mut v: Vec<char> = Vec::new();
            let head = chars_of("zip entry 路径越权（含 `..` 或绝对路径）：");
            crate::text::extend_chars(&mut v, &head);
            let tail = chars_of(name);
            crate::text::extend_chars(&mut v, &tail);
            return Err(string_of(&v));
        }
        i = i + 1;
    }
    Ok(())
}

/// Checks an archive entry name before it is joined to the target directory:
/// its components (as the platform's `Path` splits it) must hold no `..`, no
/// root and no prefix (see `check_entry_parts`).
pub fn check_entry_name(name: &str) -> (r: Result<(), String>)
    ensures
        r matches Err(m) ==> m@ == entry_refusal(name@),
        rooted(name@) || has_dotdot_segment(name@) ==> r is Err,
        plain_relative(name@) ==> r is Ok,
{
    let parts = path_parts(name);
    check_entry_parts(name, &parts)
}

} // verus!

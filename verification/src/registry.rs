//! Registry publication: the prepared package, the publish request and
//! result contracts, and the public URL of a published skill.
use vstd::prelude::*;

use vstd::string::StringSliceAdditionalSpecFns;

use crate::text::{concat, push_char, starts_with, str_eq};

verus! {

/// One file of a published package.
#[derive(Clone, Debug, PartialEq, Eq)]
pub struct RegistryPackageFile {
    pub path: String,
    pub contents: String,
}

/// Why preparing a package for publication failed.
#[derive(Debug, PartialEq, Eq)]
pub enum RegistryPublishPackageError {
    Invalid { message: String },
    Runtime(String),
}

/// What to publish: the subject path, an optional profile, the environment
/// and working directory paths are resolved against.
#[derive(Clone, Copy, Debug)]
pub struct RegistryPublishPackageRequest<'a> {
    pub subject: &'a str,
    pub profile: Option<&'a str>,
    pub env: &'a Vec<(String, String)>,
    pub cwd: &'a str,
}

/// A package prepared for publication from validated package truth.
#[derive(Debug)]
pub struct RegistryPublishPackage {
    markdown: String,
    profile_document: Option<String>,
    package_files: Vec<RegistryPackageFile>,
    harness: Option<String>,
}

/// The parts of a prepared package that are sent.
#[derive(Debug)]
pub struct RegistryPublishPackageParts {
    pub markdown: String,
    pub profile_document: Option<String>,
    pub package_files: Vec<RegistryPackageFile>,
}

impl RegistryPublishPackage {
    pub closed spec fn markdown_view(self) -> Seq<char> {
        self.markdown@
    }

    pub closed spec fn profile_view(self) -> Option<Seq<char>> {
        match self.profile_document {
            Some(p) => Some(p@),
            None => None,
        }
    }

    pub closed spec fn files_view(self) -> Seq<RegistryPackageFile> {
        self.package_files@
    }

    pub closed spec fn harness_view(self) -> Option<Seq<char>> {
        match self.harness {
            Some(h) => Some(h@),
            None => None,
        }
    }

    /// A prepared package: the manual, the execution profile, the files and
    /// the staged harness, if any.
    pub fn new(
        markdown: String,
        profile_document: Option<String>,
        package_files: Vec<RegistryPackageFile>,
        harness: Option<String>,
    ) -> (r: Self)
        ensures
            r.markdown_view() == markdown@,
            r.profile_view() == match profile_document {
                Some(p) => Some(p@),
                None => None,
            },
            r.files_view() == package_files@,
            r.harness_view() == match harness {
                Some(h) => Some(h@),
                None => None,
            },
    {
        RegistryPublishPackage { markdown, profile_document, package_files, harness }
    }

    /// The skill manual.
    pub fn markdown(&self) -> (r: &str)
        ensures
            r@ == self.markdown_view(),
    {
        self.markdown.as_str()
    }

    /// The execution profile document, if the package has one.
    pub fn profile_document(&self) -> (r: Option<&str>)
        ensures
            match r {
                Some(p) => self.profile_view() == Some(p@),
                None => self.profile_view() is None,
            },
    {
        match &self.profile_document {
            Some(p) => Some(p.as_str()),
            None => None,
        }
    }

    /// The files that are published.
    pub fn package_files(&self) -> (r: &[RegistryPackageFile])
        ensures
            r@ == self.files_view(),
    {
        self.package_files.as_slice()
    }

    /// The staged harness that must pass before publication; a package
    /// without an execution profile and a harness case cannot be published.
    pub fn run_harness(&self) -> (r: Result<&str, RegistryPublishPackageError>)
        ensures
            match self.harness_view() {
                Some(h) => r matches Ok(p) && p@ == h,
                None => r matches Err(RegistryPublishPackageError::Invalid { message }) && message@
                    == "publish requires a skill execution profile and at least one harness case"@,
            },
    {
        match &self.harness {
            Some(h) => Ok(h.as_str()),
            None => Err(
                RegistryPublishPackageError::Invalid {
                    message: "publish requires a skill execution profile and at least one harness case".to_owned(),
                },
            ),
        }
    }

    /// The parts that are sent; the staged harness is dropped.
    pub fn into_parts(self) -> (r: RegistryPublishPackageParts)
        ensures
            r.markdown@ == self.markdown_view(),
            match r.profile_document {
                Some(p) => self.profile_view() == Some(p@),
                None => self.profile_view() is None,
            },
            r.package_files@ == self.files_view(),
    {
        RegistryPublishPackageParts {
            markdown: self.markdown,
            profile_document: self.profile_document,
            package_files: self.package_files,
        }
    }
}

// ---------------------------------------------------------------------------
// Hosted publication
// ---------------------------------------------------------------------------
/// A skill publication request.
#[derive(Debug)]
pub struct HostedSkillPublishRequest<'a> {
    pub markdown: &'a str,
    pub profile_document: Option<&'a str>,
    pub version: Option<&'a str>,
    pub package_files: &'a [RegistryPackageFile],
}

/// An administrative publication request, with the owner and the harness
/// report (as its JSON text).
#[derive(Debug)]
pub struct HostedAdminSkillPublishRequest<'a> {
    pub owner: &'a str,
    pub markdown: &'a str,
    pub profile_document: Option<&'a str>,
    pub version: Option<&'a str>,
    pub upsert: bool,
    pub package_files: &'a [RegistryPackageFile],
    pub harness: &'a str,
}

/// A published skill as the registry reports it.
#[derive(Clone, Debug, PartialEq, Eq)]
pub struct HostedSkillPublishResult {
    pub status: String,
    pub skill_id: String,
    pub owner: String,
    pub name: String,
    pub version: String,
    pub digest: String,
    pub profile_digest: Option<String>,
    pub trust_tier: String,
    pub install_command: String,
    pub run_command: String,
    pub public_url: String,
}

/// Why a publication failed.
#[derive(Debug, PartialEq, Eq)]
pub enum RegistryPublishError {
    Operation(String),
    Contract(String),
}

impl RegistryPublishError {
    /// The error's message.
    pub fn message(&self) -> (r: String)
        ensures
            self matches RegistryPublishError::Contract(m) ==> r@
                == "remote registry publish returned an invalid contract: "@ + m@,
            self matches RegistryPublishError::Operation(m) ==> r@ == m@,
    {
        match self {
            RegistryPublishError::Operation(m) => m.clone(),
            RegistryPublishError::Contract(m) => {
                concat("remote registry publish returned an invalid contract: ", m.as_str())
            },
        }
    }
}

/// A publication succeeded: the envelope reports success and the
/// publication is `published` (or, for administrative publication,
/// `unchanged`).
pub open spec fn publish_accepted(envelope: Seq<char>, publish: Seq<char>, admin: bool) -> bool {
    envelope == "success"@ && (publish == "published"@ || (admin && publish == "unchanged"@))
}

/// Checks the statuses a registry returned.
pub fn check_publish_status(envelope: &str, publish: &str, admin: bool) -> (r: Result<
    (),
    RegistryPublishError,
>)
    ensures
        r is Ok <==> publish_accepted(envelope@, publish@, admin),
        r matches Err(RegistryPublishError::Contract(m)) ==> m@ == "unsuccessful status: envelope="@
            + envelope@ + ", publish="@ + publish@,
        r matches Err(e) ==> e is Contract,
{
    let accepted = str_eq(envelope, "success") && (str_eq(publish, "published") || (admin
        && str_eq(publish, "unchanged")));
    if accepted {
        Ok(())
    } else {
        let a = concat("unsuccessful status: envelope=", envelope);
        let b = concat(a.as_str(), ", publish=");
        Err(RegistryPublishError::Contract(concat(b.as_str(), publish)))
    }
}

// ---------------------------------------------------------------------------
// Public URLs
// ---------------------------------------------------------------------------
pub open spec fn unreserved_byte(b: u8) -> bool {
    (0x41 <= b <= 0x5a) || (0x61 <= b <= 0x7a) || (0x30 <= b <= 0x39) || b == 0x2d || b == 0x2e
        || b == 0x5f || b == 0x7e
}

pub open spec fn hex_upper(d: u8) -> char {
    if d < 10 {
        ((d + 0x30) as u8) as char
    } else {
        ((d + 0x37) as u8) as char
    }
}

/// Percent-encoding of UTF-8 bytes: unreserved bytes stay, every other byte
/// becomes `%` and two uppercase hex digits.
pub open spec fn percent_encoded(b: Seq<u8>) -> Seq<char>
    decreases b.len(),
{
    if b.len() == 0 {
        Seq::empty()
    } else {
        let prior = percent_encoded(b.drop_last());
        let x = b.last();
        if unreserved_byte(x) {
            prior.push(x as char)
        } else {
            prior.push('%').push(hex_upper(x / 16)).push(hex_upper(x % 16))
        }
    }
}

/// The encoding of one byte.
pub open spec fn encoded_byte(x: u8) -> Seq<char> {
    if unreserved_byte(x) {
        seq![x as char]
    } else {
        seq!['%', hex_upper(x / 16), hex_upper(x % 16)]
    }
}

/// The value of an uppercase hex digit.
pub open spec fn hex_value(c: char) -> Option<u8> {
    if '0' <= c <= '9' {
        Some((c as u32 - 0x30) as u8)
    } else if 'A' <= c <= 'F' {
        Some((c as u32 - 0x37) as u8)
    } else {
        None
    }
}

/// Reads percent-encoded text back into bytes: `%` and two uppercase hex
/// digits give one byte, an unreserved character gives itself, anything
/// else is not an encoding.
pub open spec fn percent_decoded(s: Seq<char>) -> Option<Seq<u8>>
    decreases s.len(),
{
    if s.len() == 0 {
        Some(Seq::empty())
    } else if s[0] == '%' {
        if s.len() >= 3 && hex_value(s[1]) is Some && hex_value(s[2]) is Some {
            match percent_decoded(s.subrange(3, s.len() as int)) {
                Some(rest) => Some(seq![(hex_value(s[1])->0 * 16 + hex_value(s[2])->0) as u8] + rest),
                None => None,
            }
        } else {
            None
        }
    } else if (s[0] as u32) < 256 && unreserved_byte(s[0] as u32 as u8) {
        match percent_decoded(s.drop_first()) {
            Some(rest) => Some(seq![s[0] as u32 as u8] + rest),
            None => None,
        }
    } else {
        None
    }
}

proof fn lemma_percent_front(b: Seq<u8>)
    requires
        b.len() > 0,
    ensures
        percent_encoded(b) == encoded_byte(b[0]) + percent_encoded(b.drop_first()),
    decreases b.len(),
{
    if b.len() == 1 {
        assert(b.drop_last() =~= Seq::<u8>::empty());
        assert(b.drop_first() =~= Seq::<u8>::empty());
        assert(percent_encoded(b) =~= encoded_byte(b[0]) + percent_encoded(b.drop_first()));
    } else {
        let d = b.drop_last();
        lemma_percent_front(d);
        assert(d[0] == b[0]);
        assert(d.drop_first() =~= b.drop_first().drop_last());
        assert(b.drop_first().last() == b.last());
        assert(percent_encoded(b) =~= encoded_byte(b[0]) + percent_encoded(b.drop_first()));
    }
}

proof fn lemma_byte_reads_back(x: u8, rest: Seq<char>, tail: Seq<u8>)
    requires
        percent_decoded(rest) == Some(tail),
    ensures
        percent_decoded(encoded_byte(x) + rest) == Some(seq![x] + tail),
{
    let e = encoded_byte(x) + rest;
    if unreserved_byte(x) {
        assert(e[0] == x as char);
        assert(e.drop_first() =~= rest);
        assert((x as char) as u32 as u8 == x);
    } else {
        let hi = x / 16;
        let lo = x % 16;
        assert(e[0] == '%' && e[1] == hex_upper(hi) && e[2] == hex_upper(lo));
        assert(e.subrange(3, e.len() as int) =~= rest);
        assert(hex_value(hex_upper(hi)) == Some(hi));
        assert(hex_value(hex_upper(lo)) == Some(lo));
        assert((hi * 16 + lo) as u8 == x);
    }
}

/// Percent-encoding loses nothing and breaks no URL: the encoded text
/// holds only unreserved characters, `%` and uppercase hex digits (so no
/// `/`, `?` or `#` of the value survives), and it reads back as exactly the
/// value's bytes.
pub proof fn lemma_percent_encoding_law(b: Seq<u8>)
    ensures
        percent_decoded(percent_encoded(b)) == Some(b),
        forall|i: int|
            0 <= i < percent_encoded(b).len() ==> {
                let c = #[trigger] percent_encoded(b)[i];
                ('A' <= c <= 'Z') || ('a' <= c <= 'z') || ('0' <= c <= '9') || c == '-' || c == '.'
                    || c == '_' || c == '~' || c == '%'
            },
    decreases b.len(),
{
    if b.len() == 0 {
        assert(b =~= Seq::<u8>::empty());
    } else {
        lemma_percent_front(b);
        lemma_percent_encoding_law(b.drop_first());
        lemma_byte_reads_back(b[0], percent_encoded(b.drop_first()), b.drop_first());
        assert(seq![b[0]] + b.drop_first() =~= b);
        let x = b[0];
        let e = encoded_byte(x);
        let r = percent_encoded(b.drop_first());
        assert forall|i: int| 0 <= i < percent_encoded(b).len() implies {
            let c = #[trigger] percent_encoded(b)[i];
            ('A' <= c <= 'Z') || ('a' <= c <= 'z') || ('0' <= c <= '9') || c == '-' || c == '.'
                || c == '_' || c == '~' || c == '%'
        } by {
            if i >= e.len() {
                assert(percent_encoded(b)[i] == r[i - e.len()]);
            } else if unreserved_byte(x) {
                assert(percent_encoded(b)[i] == x as char);
            } else {
                assert(percent_encoded(b)[i] == e[i]);
            }
        }
    }
}

fn hex_digit(d: u8) -> (r: char)
    requires
        d < 16,
    ensures
        r == hex_upper(d),
{
    if d < 10 {
        ((d + 0x30) as u8) as char
    } else {
        ((d + 0x37) as u8) as char
    }
}

/// Percent-encodes a path component.
pub fn encode_path_component(value: &str) -> (r: String)
    ensures
        r@ == percent_encoded(value.spec_bytes()),
{
    let bytes = value.as_bytes();
    let mut encoded = String::new();
    let mut i: usize = 0;
    while i < bytes.len()
        invariant
            i <= bytes@.len(),
            bytes@ == value.spec_bytes(),
            encoded@ == percent_encoded(bytes@.subrange(0, i as int)),
        decreases bytes.len() - i,
    {
        let b = bytes[i];
        assert(bytes@.subrange(0, i + 1).drop_last() =~= bytes@.subrange(0, i as int));
        if (0x41 <= b && b <= 0x5a) || (0x61 <= b && b <= 0x7a) || (0x30 <= b && b <= 0x39) || b
            == 0x2d || b == 0x2e || b == 0x5f || b == 0x7e {
            push_char(&mut encoded, b as char);
        } else {
            push_char(&mut encoded, '%');
            push_char(&mut encoded, hex_digit(b / 16));
            push_char(&mut encoded, hex_digit(b % 16));
        }
        i = i + 1;
    }
    assert(bytes@.subrange(0, bytes@.len() as int) =~= bytes@);
    encoded
}

/// The index of the first `c` in `s`, if any.
pub open spec fn first_index(s: Seq<char>, c: char) -> Option<int>
    decreases s.len(),
{
    if s.len() == 0 {
        None
    } else if s[0] == c {
        Some(0)
    } else {
        match first_index(s.drop_first(), c) {
            Some(i) => Some(i + 1),
            None => None,
        }
    }
}

/// `str::split_once`: the parts before and after the first `c`.
pub open spec fn split_once_spec(s: Seq<char>, c: char) -> Option<(Seq<char>, Seq<char>)> {
    match first_index(s, c) {
        Some(i) => Some((s.subrange(0, i), s.subrange(i + 1, s.len() as int))),
        None => None,
    }
}

proof fn lemma_first_index(s: Seq<char>, c: char, i: int)
    requires
        0 <= i <= s.len(),
        forall|j: int| 0 <= j < i ==> s[j] != c,
    ensures
        i < s.len() && s[i] == c ==> first_index(s, c) == Some(i),
        i == s.len() ==> first_index(s, c) is None,
    decreases i,
{
    if i > 0 {
        lemma_first_index(s.drop_first(), c, i - 1);
    } else if s.len() > 0 {
    }
}

/// The parts around the first `c`.
pub fn split_once(s: &str, c: char) -> (r: Option<(String, String)>)
    ensures
        match split_once_spec(s@, c) {
            Some((a, b)) => r matches Some(p) && p.0@ == a && p.1@ == b,
            None => r is None,
        },
{
    let chars = crate::text::chars_of(s);
    let mut i: usize = 0;
    while i < chars.len()
        invariant
            i <= chars@.len(),
            chars@ == s@,
            forall|j: int| 0 <= j < i ==> chars@[j] != c,
        decreases chars.len() - i,
    {
        if chars[i] == c {
            proof {
                lemma_first_index(s@, c, i as int);
            }
            let head = crate::text::string_from_range(&chars, 0, i);
            let tail = crate::text::string_from_range(&chars, i + 1, chars.len());
            return Some((head, tail));
        }
        i = i + 1;
    }
    proof {
        lemma_first_index(s@, c, i as int);
    }
    None
}

/// The runx.ai page of a published version: owner and name from
/// `owner/name` (no owner without a slash), each percent-encoded.
pub open spec fn public_url_spec(skill_id: Seq<char>, version: Seq<char>) -> Seq<char> {
    let (owner, name) = match split_once_spec(skill_id, '/') {
        Some(p) => p,
        None => (Seq::empty(), skill_id),
    };
    "https://runx.ai/x/"@ + percent_encoded(vstd::utf8::encode_utf8(owner)) + "/"@ + percent_encoded(
        vstd::utf8::encode_utf8(name),
    ) + "@"@ + percent_encoded(vstd::utf8::encode_utf8(version))
}

/// The public URL of a published skill version.
pub fn runx_skill_public_url(skill_id: &str, version: &str) -> (r: String)
    ensures
        r@ == public_url_spec(skill_id@, version@),
{
    let (owner, name) = match split_once(skill_id, '/') {
        Some(p) => p,
        None => (String::new(), skill_id.to_owned()),
    };
    let a = concat("https://runx.ai/x/", encode_path_component(owner.as_str()).as_str());
    let b = concat(a.as_str(), "/");
    let c = concat(b.as_str(), encode_path_component(name.as_str()).as_str());
    let d = concat(c.as_str(), "@");
    concat(d.as_str(), encode_path_component(version).as_str())
}

/// The link the registry returned for a publication.
#[derive(Debug)]
pub struct HostedSkillPublishLink {
    pub install_command: String,
    pub run_command: String,
    pub public_url: Option<String>,
    pub link: Option<String>,
}

/// The page of a publication: the registry's public URL, else its link when
/// it is an http(s) URL, else the runx.ai page.
pub open spec fn link_url_spec(
    public_url: Option<Seq<char>>,
    link: Option<Seq<char>>,
    skill_id: Seq<char>,
    version: Seq<char>,
) -> Seq<char> {
    match public_url {
        Some(u) => u,
        None => match link {
            Some(l) => if crate::text::starts_with_spec(l, "http://"@)
                || crate::text::starts_with_spec(l, "https://"@) {
                l
            } else {
                public_url_spec(skill_id, version)
            },
            None => public_url_spec(skill_id, version),
        },
    }
}

pub open spec fn opt_view(s: Option<String>) -> Option<Seq<char>> {
    match s {
        Some(v) => Some(v@),
        None => None,
    }
}

impl HostedSkillPublishLink {
    /// The public page of a published version.
    pub fn public_url(&self, skill_id: &str, version: &str) -> (r: String)
        ensures
            r@ == link_url_spec(opt_view(self.public_url), opt_view(self.link), skill_id@, version@),
    {
        match &self.public_url {
            Some(u) => {
                return u.clone();
            },
            None => {},
        }
        match &self.link {
            Some(l) => {
                if starts_with(l.as_str(), "http://") || starts_with(l.as_str(), "https://") {
                    return l.clone();
                }
            },
            None => {},
        }
        runx_skill_public_url(skill_id, version)
    }
}

/// The registry record of an administratively published skill.
#[derive(Debug)]
pub struct HostedAdminSkillRecord {
    pub owner: String,
    pub trust_tier: Option<String>,
}

/// An administrative publication as the registry reports it.
#[derive(Debug)]
pub struct HostedAdminSkillPublishResult {
    pub status: String,
    pub skill_id: String,
    pub name: String,
    pub version: String,
    pub digest: String,
    pub profile_digest: Option<String>,
    pub record: Option<HostedAdminSkillRecord>,
    pub link: HostedSkillPublishLink,
}

impl HostedAdminSkillPublishResult {
    /// The owner: the record's, else the part of the skill id before `/`,
    /// else empty.
    pub open spec fn owner_spec(self) -> Seq<char> {
        match self.record {
            Some(r) => r.owner@,
            None => match split_once_spec(self.skill_id@, '/') {
                Some((o, _)) => o,
                None => Seq::empty(),
            },
        }
    }

    /// The trust tier: the record's, else first party.
    pub open spec fn trust_tier_spec(self) -> Seq<char> {
        match self.record {
            Some(r) => match r.trust_tier {
                Some(t) => t@,
                None => "first_party"@,
            },
            None => "first_party"@,
        }
    }

    /// The publication in the shape of an ordinary one.
    pub fn into_hosted_result(self) -> (r: HostedSkillPublishResult)
        ensures
            r.status@ == self.status@,
            r.skill_id@ == self.skill_id@,
            r.owner@ == self.owner_spec(),
            r.name@ == self.name@,
            r.version@ == self.version@,
            r.digest@ == self.digest@,
            opt_view(r.profile_digest) == opt_view(self.profile_digest),
            r.trust_tier@ == self.trust_tier_spec(),
            r.install_command@ == self.link.install_command@,
            r.run_command@ == self.link.run_command@,
            r.public_url@ == link_url_spec(
                opt_view(self.link.public_url),
                opt_view(self.link.link),
                self.skill_id@,
                self.version@,
            ),
    {
        let owner = match &self.record {
            Some(record) => record.owner.clone(),
            None => match split_once(self.skill_id.as_str(), '/') {
                Some((o, _)) => o,
                None => String::new(),
            },
        };
        let trust_tier = match &self.record {
            Some(record) => match &record.trust_tier {
                Some(t) => t.clone(),
                None => "first_party".to_owned(),
            },
            None => "first_party".to_owned(),
        };
        let public_url = self.link.public_url(self.skill_id.as_str(), self.version.as_str());
        HostedSkillPublishResult {
            status: self.status,
            public_url,
            skill_id: self.skill_id,
            owner,
            name: self.name,
            version: self.version,
            digest: self.digest,
            profile_digest: self.profile_digest,
            trust_tier,
            install_command: self.link.install_command,
            run_command: self.link.run_command,
        }
    }
}

} // verus!

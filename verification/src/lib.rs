//! Packing files into chains of nested archive formats.
//!
//! The crate resolves an ordered list of packing stages, either from explicit
//! format and level arguments or from the extensions of an output file name,
//! and decides, step by step, what has to happen on disk to run those stages.

pub mod error;
pub mod packer;
pub mod pipeline;
pub mod plan;
pub mod resolver;
pub mod text;

use vstd::prelude::*;
use vstd::string::StrSliceExecFns;
use vstd::string::StringExecFns;

use crate::error::Error;
use crate::error::ErrorView;
use crate::text::lowercase_of;
use crate::text::to_lowercase;

verus! {

/// How hard a stage should compress.
#[derive(Debug, Clone, Copy, PartialEq, Eq, Structural)]
pub enum CompressionLevel {
    /// The codec picks its own level.
    Auto,
    /// A level from 0 to 9.
    Numbered(u8),
}

impl Default for CompressionLevel {
    fn default() -> (r: Self)
        ensures
            r == CompressionLevel::Auto,
    {
        CompressionLevel::Auto
    }
}

/// The character that stands for the digit `d`.
pub open spec fn digit_char(d: int) -> char {
    (d + 48) as char
}

/// The decimal digits of `n`, without leading zeros.
pub open spec fn decimal(n: nat) -> Seq<char>
    decreases n,
{
    if n < 10 {
        seq![digit_char(n as int)]
    } else {
        decimal(n / 10).push(digit_char((n % 10) as int))
    }
}

/// The one-character string of a digit.
fn digit_str(d: u8) -> (r: &'static str)
    requires
        d < 10,
    ensures
        r@ == seq![digit_char(d as int)],
{
    proof {
        reveal_strlit("0");
        reveal_strlit("1");
        reveal_strlit("2");
        reveal_strlit("3");
        reveal_strlit("4");
        reveal_strlit("5");
        reveal_strlit("6");
        reveal_strlit("7");
        reveal_strlit("8");
        reveal_strlit("9");
    }
    let r = if d == 0 {
        "0"
    } else if d == 1 {
        "1"
    } else if d == 2 {
        "2"
    } else if d == 3 {
        "3"
    } else if d == 4 {
        "4"
    } else if d == 5 {
        "5"
    } else if d == 6 {
        "6"
    } else if d == 7 {
        "7"
    } else if d == 8 {
        "8"
    } else {
        "9"
    };
    assert(r@ =~= seq![digit_char(d as int)]);
    r
}

impl CompressionLevel {
    /// A level is well formed when its number, if it has one, is at most 9.
    pub open spec fn wf(self) -> bool {
        match self {
            CompressionLevel::Auto => true,
            CompressionLevel::Numbered(n) => n <= 9,
        }
    }

    /// The level that a lowercase string names: `auto`, or one digit.
    pub open spec fn spec_parse(lower: Seq<char>) -> Option<CompressionLevel> {
        if lower == "auto"@ {
            Some(CompressionLevel::Auto)
        } else if lower.len() == 1 && '0' <= lower[0] <= '9' {
            Some(CompressionLevel::Numbered((lower[0] as u32 - 48) as u8))
        } else {
            None
        }
    }

    /// The text of a level: `auto`, or its number in decimal.
    pub open spec fn spec_text(self) -> Seq<char> {
        match self {
            CompressionLevel::Auto => "auto"@,
            CompressionLevel::Numbered(n) => decimal(n as nat),
        }
    }

    /// Reads a level from a string that is already in lowercase.
    pub fn parse_lowercase(lower: &str) -> (r: Option<CompressionLevel>)
        ensures
            r == Self::spec_parse(lower@),
            r matches Some(level) ==> level.wf(),
    {
        if lower.eq("auto") {
            return Some(CompressionLevel::Auto);
        }
        if lower.unicode_len() == 1 {
            let c = lower.get_char(0);
            if '0' <= c && c <= '9' {
                return Some(CompressionLevel::Numbered((c as u32 - 48) as u8));
            }
        }
        None
    }

    /// Reads a level from a string, whatever its case. A string that names no
    /// level is handed back inside the error.
    pub fn from_str(s: &str) -> (r: Result<CompressionLevel, Error>)
        ensures
            match Self::spec_parse(lowercase_of(s@)) {
                Some(level) => r == Ok::<CompressionLevel, Error>(level) && level.wf(),
                None => r is Err && r->Err_0@ == ErrorView::InvalidCompressionLevel(s@),
            },
    {
        let lower = to_lowercase(s);
        match Self::parse_lowercase(lower.as_str()) {
            Some(level) => Ok(level),
            None => Err(Error::InvalidCompressionLevel(s.to_owned())),
        }
    }

    /// The text of this level.
    pub fn to_string(&self) -> (r: String)
        ensures
            r@ == self.spec_text(),
    {
        match self {
            CompressionLevel::Auto => "auto".to_owned(),
            CompressionLevel::Numbered(n) => {
                let n: u8 = *n;
                let mut text = String::new();
                if n >= 100 {
                    text.append(digit_str(n / 100));
                }
                if n >= 10 {
                    text.append(digit_str((n / 10) % 10));
                }
                text.append(digit_str(n % 10));
                proof {
                    reveal_with_fuel(decimal, 3);
                    assert(text@ =~= decimal(n as nat));
                }
                text
            },
        }
    }
}

impl std::str::FromStr for CompressionLevel {
    type Err = Error;

    fn from_str(s: &str) -> (r: Result<CompressionLevel, Error>)
        ensures
            match CompressionLevel::spec_parse(lowercase_of(s@)) {
                Some(level) => r == Ok::<CompressionLevel, Error>(level) && level.wf(),
                None => r is Err && r->Err_0@ == ErrorView::InvalidCompressionLevel(s@),
            },
    {
        CompressionLevel::from_str(s)
    }
}

/// An archive or compression format that a packing stage can apply.
#[derive(Debug, Clone, Copy, PartialEq, Eq, Structural)]
pub enum ArchiveFormat {
    Tar,
    Zip,
    GZip,
    Lzma,
}

impl ArchiveFormat {
    /// The lowercase name of a format.
    pub open spec fn spec_name(self) -> Seq<char> {
        match self {
            ArchiveFormat::Tar => "tar"@,
            ArchiveFormat::Zip => "zip"@,
            ArchiveFormat::GZip => "gzip"@,
            ArchiveFormat::Lzma => "lzma"@,
        }
    }

    /// The file name extension that an archive of a format is given.
    pub open spec fn spec_ext(self) -> Seq<char> {
        match self {
            ArchiveFormat::Tar => "tar"@,
            ArchiveFormat::Zip => "zip"@,
            ArchiveFormat::GZip => "gz"@,
            ArchiveFormat::Lzma => "xz"@,
        }
    }

    /// The format that a lowercase string names.
    pub open spec fn spec_parse(lower: Seq<char>) -> Option<ArchiveFormat> {
        if lower == "tar"@ {
            Some(ArchiveFormat::Tar)
        } else if lower == "zip"@ {
            Some(ArchiveFormat::Zip)
        } else if lower == "gzip"@ {
            Some(ArchiveFormat::GZip)
        } else if lower == "lzma"@ {
            Some(ArchiveFormat::Lzma)
        } else {
            None
        }
    }

    /// The formats that a piece of a file name stands for: none for a piece
    /// that is no known extension, two for `tgz`.
    pub open spec fn spec_from_ext(ext: Seq<char>) -> Seq<ArchiveFormat> {
        if ext == "tar"@ {
            seq![ArchiveFormat::Tar]
        } else if ext == "tgz"@ {
            seq![ArchiveFormat::Tar, ArchiveFormat::GZip]
        } else if ext == "gz"@ {
            seq![ArchiveFormat::GZip]
        } else if ext == "xz"@ || ext == "lz"@ || ext == "lzma"@ {
            seq![ArchiveFormat::Lzma]
        } else if ext == "zip"@ {
            seq![ArchiveFormat::Zip]
        } else {
            seq![]
        }
    }

    /// The lowercase name of this format.
    pub fn name(&self) -> (r: &'static str)
        ensures
            r@ == self.spec_name(),
    {
        match self {
            ArchiveFormat::Tar => "tar",
            ArchiveFormat::Zip => "zip",
            ArchiveFormat::GZip => "gzip",
            ArchiveFormat::Lzma => "lzma",
        }
    }

    /// The lowercase name of this format, as an owned string.
    pub fn to_string(&self) -> (r: String)
        ensures
            r@ == self.spec_name(),
    {
        self.name().to_owned()
    }

    /// The extension that an archive of this format is given.
    pub fn as_ext(&self) -> (r: &'static str)
        ensures
            r@ == self.spec_ext(),
    {
        match self {
            ArchiveFormat::Tar => "tar",
            ArchiveFormat::Zip => "zip",
            ArchiveFormat::GZip => "gz",
            ArchiveFormat::Lzma => "xz",
        }
    }

    /// The names of all formats, in the order of their declaration.
    pub fn all() -> (r: &'static [&'static str])
        ensures
            r@.len() == 4,
            r@[0]@ == ArchiveFormat::Tar.spec_name(),
            r@[1]@ == ArchiveFormat::Zip.spec_name(),
            r@[2]@ == ArchiveFormat::GZip.spec_name(),
            r@[3]@ == ArchiveFormat::Lzma.spec_name(),
    {
        &["tar", "zip", "gzip", "lzma"]
    }

    /// The formats that the piece `ext` of a file name stands for.
    pub fn try_from_ext(ext: &str) -> (r: Vec<ArchiveFormat>)
        ensures
            r@ == Self::spec_from_ext(ext@),
    {
        let mut formats: Vec<ArchiveFormat> = Vec::new();
        if ext.eq("tar") {
            formats.push(ArchiveFormat::Tar);
        } else if ext.eq("tgz") {
            formats.push(ArchiveFormat::Tar);
            formats.push(ArchiveFormat::GZip);
        } else if ext.eq("gz") {
            formats.push(ArchiveFormat::GZip);
        } else if ext.eq("xz") || ext.eq("lz") || ext.eq("lzma") {
            formats.push(ArchiveFormat::Lzma);
        } else if ext.eq("zip") {
            formats.push(ArchiveFormat::Zip);
        }
        formats
    }

    /// Reads a format from a string that is already in lowercase.
    pub fn parse_lowercase(lower: &str) -> (r: Option<ArchiveFormat>)
        ensures
            r == Self::spec_parse(lower@),
    {
        if lower.eq("tar") {
            Some(ArchiveFormat::Tar)
        } else if lower.eq("zip") {
            Some(ArchiveFormat::Zip)
        } else if lower.eq("gzip") {
            Some(ArchiveFormat::GZip)
        } else if lower.eq("lzma") {
            Some(ArchiveFormat::Lzma)
        } else {
            None
        }
    }

    /// Reads a format from a string, whatever its case. A string that names
    /// no format is handed back inside the error.
    pub fn from_str(s: &str) -> (r: Result<ArchiveFormat, Error>)
        ensures
            match Self::spec_parse(lowercase_of(s@)) {
                Some(format) => r == Ok::<ArchiveFormat, Error>(format),
                None => r is Err && r->Err_0@ == ErrorView::InvalidCompressionFormat(s@),
            },
    {
        let lower = to_lowercase(s);
        match Self::parse_lowercase(lower.as_str()) {
            Some(format) => Ok(format),
            None => Err(Error::InvalidCompressionFormat(s.to_owned())),
        }
    }
}

impl std::str::FromStr for ArchiveFormat {
    type Err = Error;

    fn from_str(s: &str) -> (r: Result<ArchiveFormat, Error>)
        ensures
            match ArchiveFormat::spec_parse(lowercase_of(s@)) {
                Some(format) => r == Ok::<ArchiveFormat, Error>(format),
                None => r is Err && r->Err_0@ == ErrorView::InvalidCompressionFormat(s@),
            },
    {
        ArchiveFormat::from_str(s)
    }
}

/// What the names and extensions of the formats hold, character by character.
pub proof fn lemma_format_names()
    ensures
        "tar"@ == seq!['t', 'a', 'r'],
        "tgz"@ == seq!['t', 'g', 'z'],
        "zip"@ == seq!['z', 'i', 'p'],
        "gzip"@ == seq!['g', 'z', 'i', 'p'],
        "lzma"@ == seq!['l', 'z', 'm', 'a'],
        "gz"@ == seq!['g', 'z'],
        "xz"@ == seq!['x', 'z'],
        "lz"@ == seq!['l', 'z'],
        "auto"@ == seq!['a', 'u', 't', 'o'],
{
    reveal_strlit("tar");
    reveal_strlit("tgz");
    reveal_strlit("zip");
    reveal_strlit("gzip");
    reveal_strlit("lzma");
    reveal_strlit("gz");
    reveal_strlit("xz");
    reveal_strlit("lz");
    reveal_strlit("auto");
    assert("tar"@ =~= seq!['t', 'a', 'r']);
    assert("tgz"@ =~= seq!['t', 'g', 'z']);
    assert("zip"@ =~= seq!['z', 'i', 'p']);
    assert("gzip"@ =~= seq!['g', 'z', 'i', 'p']);
    assert("lzma"@ =~= seq!['l', 'z', 'm', 'a']);
    assert("gz"@ =~= seq!['g', 'z']);
    assert("xz"@ =~= seq!['x', 'z']);
    assert("lz"@ =~= seq!['l', 'z']);
    assert("auto"@ =~= seq!['a', 'u', 't', 'o']);
}

/// A format's own extension stands for that format alone.
pub proof fn lemma_ext_round_trip(format: ArchiveFormat)
    ensures
        ArchiveFormat::spec_from_ext(format.spec_ext()) == seq![format],
{
    lemma_format_names();
    assert("tar"@[0] == 't' && "tgz"@[0] == 't' && "tgz"@[1] == 'g' && "tar"@[1] == 'a');
    assert("gz"@[0] == 'g' && "xz"@[0] == 'x' && "lz"@[0] == 'l' && "zip"@[0] == 'z');
}

/// A format's name reads back as that format.
pub proof fn lemma_name_round_trip(format: ArchiveFormat)
    ensures
        ArchiveFormat::spec_parse(format.spec_name()) == Some(format),
{
    lemma_format_names();
    assert("tar"@[0] == 't' && "zip"@[0] == 'z' && "gzip"@[0] == 'g' && "lzma"@[0] == 'l');
}

/// A well-formed level's text reads back as that level.
pub proof fn lemma_level_round_trip(level: CompressionLevel)
    requires
        level.wf(),
    ensures
        CompressionLevel::spec_parse(level.spec_text()) == Some(level),
{
    lemma_format_names();
    match level {
        CompressionLevel::Auto => {},
        CompressionLevel::Numbered(n) => {
            assert(decimal(n as nat) =~= seq![digit_char(n as int)]);
            assert(decimal(n as nat).len() == 1);
            assert("auto"@.len() == 4);
            assert(decimal(n as nat)[0] == digit_char(n as int));
        },
    }
}

} // verus!

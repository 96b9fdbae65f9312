//! From what the user asked for to an ordered list of packing stages.
//!
//! Stages are either given outright, as format strings with optional level
//! strings, or read off the extensions of the output file name.

use vstd::prelude::*;

use crate::error::Error;
use crate::error::ErrorView;
use crate::text::dot_tokens;
use crate::text::lemma_dot_tokens_first;
use crate::text::lowercase_of;
use crate::text::split_dots;
use crate::ArchiveFormat;
use crate::CompressionLevel;

verus! {

/// One unit of packing: a format and the level to apply it at. In a list of
/// stages the first is applied to the inputs and each later one to the
/// archive that the stage before it made.
pub type PackingStage = (ArchiveFormat, CompressionLevel);

/// What a format string resolves to.
pub open spec fn parse_format(s: Seq<char>) -> Result<ArchiveFormat, ErrorView> {
    match ArchiveFormat::spec_parse(lowercase_of(s)) {
        Some(format) => Ok(format),
        None => Err(ErrorView::InvalidCompressionFormat(s)),
    }
}

/// What a level string resolves to.
pub open spec fn parse_level(s: Seq<char>) -> Result<CompressionLevel, ErrorView> {
    match CompressionLevel::spec_parse(lowercase_of(s)) {
        Some(level) => Ok(level),
        None => Err(ErrorView::InvalidCompressionLevel(s)),
    }
}

/// The stage at position `i`: the format there, with the level at the same
/// position if there is one and `Auto` otherwise. The format is read first.
pub open spec fn parse_pair(formats: Seq<Seq<char>>, levels: Seq<Seq<char>>, i: int) -> Result<
    PackingStage,
    ErrorView,
> {
    match parse_format(formats[i]) {
        Err(e) => Err(e),
        Ok(format) => if i < levels.len() {
            match parse_level(levels[i]) {
                Err(e) => Err(e),
                Ok(level) => Ok((format, level)),
            }
        } else {
            Ok((format, CompressionLevel::Auto))
        },
    }
}

/// The first `n` stages, or the error of the first position that has one.
pub open spec fn parse_pairs(formats: Seq<Seq<char>>, levels: Seq<Seq<char>>, n: nat) -> Result<
    Seq<PackingStage>,
    ErrorView,
>
    decreases n,
{
    if n == 0 {
        Ok(Seq::empty())
    } else {
        match parse_pairs(formats, levels, (n - 1) as nat) {
            Err(e) => Err(e),
            Ok(stages) => match parse_pair(formats, levels, n - 1) {
                Err(e) => Err(e),
                Ok(stage) => Ok(stages.push(stage)),
            },
        }
    }
}

/// The stages that explicit arguments stand for. A level without a format
/// to bind to is an error, whatever the strings hold.
pub open spec fn explicit_stages(formats: Seq<Seq<char>>, levels: Seq<Seq<char>>) -> Result<
    Seq<PackingStage>,
    ErrorView,
> {
    if levels.len() > formats.len() {
        Err(ErrorView::MissingCompressionFormat)
    } else {
        parse_pairs(formats, levels, formats.len())
    }
}

/// Each format, with the level left to the codec.
pub open spec fn auto_stages(formats: Seq<ArchiveFormat>) -> Seq<PackingStage> {
    Seq::new(formats.len(), |i: int| (formats[i], CompressionLevel::Auto))
}

/// The stages that a run of file name pieces stands for, from left to right.
pub open spec fn token_stages(tokens: Seq<Seq<char>>) -> Seq<PackingStage>
    decreases tokens.len(),
{
    if tokens.len() == 0 {
        Seq::empty()
    } else {
        token_stages(tokens.drop_last()) + auto_stages(
            ArchiveFormat::spec_from_ext(tokens.last()),
        )
    }
}

/// The stages that a file name stands for: those of its pieces after the
/// first, which is the base name.
pub open spec fn inferred_stages(file_name: Seq<char>) -> Seq<PackingStage> {
    token_stages(dot_tokens(file_name).skip(1))
}

/// The stages that a request resolves to. Explicit formats, if any, decide;
/// without them the file name does.
pub open spec fn resolved_stages(
    formats: Seq<Seq<char>>,
    levels: Seq<Seq<char>>,
    file_name: Seq<char>,
) -> Result<Seq<PackingStage>, ErrorView> {
    if levels.len() > formats.len() {
        Err(ErrorView::MissingCompressionFormat)
    } else if formats.len() > 0 {
        explicit_stages(formats, levels)
    } else {
        Ok(inferred_stages(file_name))
    }
}

/// Whether an outcome in code is the outcome that a contract names.
pub open spec fn stages_match(
    r: Result<Vec<PackingStage>, Error>,
    expected: Result<Seq<PackingStage>, ErrorView>,
) -> bool {
    match expected {
        Ok(stages) => r is Ok && r->Ok_0@ == stages,
        Err(e) => r is Err && r->Err_0@ == e,
    }
}

/// Resolves explicit arguments: `formats[i]` pairs with `levels[i]`, or with
/// `Auto` where the levels have run out.
pub fn resolve_explicit(formats: &Vec<String>, levels: &Vec<String>) -> (r: Result<
    Vec<PackingStage>,
    Error,
>)
    ensures
        stages_match(r, explicit_stages(formats.deep_view(), levels.deep_view())),
{
    if levels.len() > formats.len() {
        return Err(Error::MissingCompressionFormat);
    }
    let ghost fs = formats.deep_view();
    let ghost ls = levels.deep_view();
    let mut stages: Vec<PackingStage> = Vec::new();
    let mut i: usize = 0;
    while i < formats.len()
        invariant
            0 <= i <= formats.len(),
            levels.len() <= formats.len(),
            fs.len() == formats.len(),
            ls.len() == levels.len(),
            fs == formats.deep_view(),
            ls == levels.deep_view(),
            parse_pairs(fs, ls, i as nat) == Ok::<Seq<PackingStage>, ErrorView>(stages@),
        decreases formats.len() - i,
    {
        assert(fs[i as int] == formats[i as int]@);
        let format = match ArchiveFormat::from_str(formats[i].as_str()) {
            Ok(format) => format,
            Err(e) => {
                proof {
                    lemma_parse_pairs_err(fs, ls, i as int, fs.len());
                }
                return Err(e);
            },
        };
        let level = if i < levels.len() {
            assert(ls[i as int] == levels[i as int]@);
            match CompressionLevel::from_str(levels[i].as_str()) {
                Ok(level) => level,
                Err(e) => {
                    proof {
                        lemma_parse_pairs_err(fs, ls, i as int, fs.len());
                    }
                    return Err(e);
                },
            }
        } else {
            CompressionLevel::Auto
        };
        stages.push((format, level));
        i = i + 1;
    }
    Ok(stages)
}

/// Once a position fails, every longer run of stages fails with its error.
pub proof fn lemma_parse_pairs_err(
    formats: Seq<Seq<char>>,
    levels: Seq<Seq<char>>,
    i: int,
    n: nat,
)
    requires
        0 <= i < n,
        parse_pairs(formats, levels, i as nat) is Ok,
        parse_pair(formats, levels, i) is Err,
    ensures
        parse_pairs(formats, levels, n) == Err::<Seq<PackingStage>, ErrorView>(
            parse_pair(formats, levels, i)->Err_0,
        ),
    decreases n,
{
    if n > i + 1 {
        lemma_parse_pairs_err(formats, levels, i, (n - 1) as nat);
    }
}

/// Resolves a file name: each piece after the base name adds the formats
/// that it stands for, at level `Auto`; a piece that stands for none adds
/// nothing.
pub fn resolve_inferred(file_name: &str) -> (r: Vec<PackingStage>)
    ensures
        r@ == inferred_stages(file_name@),
{
    let tokens = split_dots(file_name);
    let ghost pieces = dot_tokens(file_name@);
    let mut stages: Vec<PackingStage> = Vec::new();
    let mut k: usize = 1;
    proof {
        lemma_dot_tokens_first(file_name@);
        assert(pieces.subrange(1, 1) =~= Seq::<Seq<char>>::empty());
    }
    while k < tokens.len()
        invariant
            1 <= k <= tokens.len(),
            tokens@.len() == pieces.len(),
            forall|j: int| 0 <= j < tokens@.len() ==> (#[trigger] tokens@[j])@ == pieces[j],
            stages@ == token_stages(pieces.subrange(1, k as int)),
        decreases tokens.len() - k,
    {
        let formats = ArchiveFormat::try_from_ext(tokens[k].as_str());
        let ghost before = stages@;
        let mut j: usize = 0;
        while j < formats.len()
            invariant
                0 <= j <= formats.len(),
                stages@ == before + auto_stages(formats@.take(j as int)),
            decreases formats.len() - j,
        {
            stages.push((formats[j], CompressionLevel::Auto));
            assert(stages@ =~= before + auto_stages(formats@.take(j + 1)));
            j = j + 1;
        }
        proof {
            let next = pieces.subrange(1, k + 1);
            assert(formats@.take(formats.len() as int) =~= formats@);
            assert(next.drop_last() =~= pieces.subrange(1, k as int));
            assert(next.last() == pieces[k as int]);
        }
        k = k + 1;
    }
    assert(pieces.subrange(1, pieces.len() as int) =~= pieces.skip(1));
    stages
}

/// Resolves a request. With more levels than formats nothing is resolved;
/// with explicit formats they decide; without them the file name does.
pub fn resolve(formats: &Vec<String>, levels: &Vec<String>, file_name: &str) -> (r: Result<
    Vec<PackingStage>,
    Error,
>)
    ensures
        stages_match(
            r,
            resolved_stages(formats.deep_view(), levels.deep_view(), file_name@),
        ),
{
    if levels.len() > formats.len() {
        Err(Error::MissingCompressionFormat)
    } else if formats.len() > 0 {
        resolve_explicit(formats, levels)
    } else {
        Ok(resolve_inferred(file_name))
    }
}

/// When explicit resolution succeeds there is one stage for each format, and
/// each is the pair at its position.
pub proof fn lemma_parse_pairs_ok(formats: Seq<Seq<char>>, levels: Seq<Seq<char>>, n: nat)
    requires
        parse_pairs(formats, levels, n) is Ok,
    ensures
        parse_pairs(formats, levels, n)->Ok_0.len() == n,
        forall|i: int|
            0 <= i < n ==> #[trigger] parse_pair(formats, levels, i) == Ok::<
                PackingStage,
                ErrorView,
            >(parse_pairs(formats, levels, n)->Ok_0[i]),
    decreases n,
{
    if n > 0 {
        lemma_parse_pairs_ok(formats, levels, (n - 1) as nat);
    }
}

/// When explicit resolution fails, the error is that of the first position
/// whose format or level cannot be read.
pub proof fn lemma_parse_pairs_first_error(
    formats: Seq<Seq<char>>,
    levels: Seq<Seq<char>>,
    n: nat,
)
    requires
        parse_pairs(formats, levels, n) is Err,
    ensures
        exists|i: int|
            0 <= i < n && #[trigger] parse_pair(formats, levels, i) == Err::<
                PackingStage,
                ErrorView,
            >(parse_pairs(formats, levels, n)->Err_0) && parse_pairs(formats, levels, i as nat)
                is Ok,
    decreases n,
{
    if n > 0 {
        if parse_pairs(formats, levels, (n - 1) as nat) is Err {
            lemma_parse_pairs_first_error(formats, levels, (n - 1) as nat);
        } else {
            assert(parse_pair(formats, levels, n - 1) is Err);
        }
    }
}

/// The stages of two runs of pieces, one after the other, are the stages of
/// the first run followed by those of the second.
pub proof fn lemma_token_stages_concat(a: Seq<Seq<char>>, b: Seq<Seq<char>>)
    ensures
        token_stages(a + b) == token_stages(a) + token_stages(b),
    decreases b.len(),
{
    if b.len() == 0 {
        assert(a + b =~= a);
        assert(token_stages(a) + token_stages(b) =~= token_stages(a));
    } else {
        lemma_token_stages_concat(a, b.drop_last());
        assert((a + b).drop_last() =~= a + b.drop_last());
        assert((a + b).last() == b.last());
        assert(token_stages(a + b) =~= token_stages(a) + token_stages(b));
    }
}

/// Every stage read off a file name leaves its level to the codec.
pub proof fn lemma_token_stages_auto(tokens: Seq<Seq<char>>)
    ensures
        forall|i: int|
            0 <= i < token_stages(tokens).len() ==> (#[trigger] token_stages(tokens)[i]).1
                == CompressionLevel::Auto,
    decreases tokens.len(),
{
    if tokens.len() > 0 {
        lemma_token_stages_auto(tokens.drop_last());
    }
}

/// A piece that is no known extension adds no stage.
pub proof fn lemma_unknown_token_skipped(tokens: Seq<Seq<char>>, token: Seq<char>)
    requires
        ArchiveFormat::spec_from_ext(token).len() == 0,
    ensures
        token_stages(tokens.push(token)) == token_stages(tokens),
{
    assert(tokens.push(token).drop_last() =~= tokens);
    assert(token_stages(tokens.push(token)) =~= token_stages(tokens));
}

} // verus!

//! Classification of an input's bytes and assembly of a list file's entries
//! into the ordered payloads of an aggregate.
//!
//! The caller owns the reading: it hands this module the bytes of the input,
//! and, for a list file, the bytes of each listed path (or `None` where the
//! path does not exist). Every decision — the four-byte lookahead, the one
//! gzip unwrap, the line filtering, the fail-fast rejection — is made here.

use vstd::prelude::*;

use crate::gzip::{gunzip, gunzip_of};
use crate::text::{skip_line, spec_lines, spec_trim, split_lines, trim};

verus! {

/// Why a resolution was rejected as a whole; no partial result survives any
/// of these.
#[derive(Clone, Copy, Debug, PartialEq, Eq, Structural)]
pub enum ResolveError {
    /// Fewer than four bytes were available during the lookahead.
    ShortLookahead,
    /// The input announced gzip but its stream did not decompress.
    GzipDecode,
    /// A list-file line is not valid text.
    InvalidText,
    /// A non-blank, non-comment list-file line names no existing path.
    MissingPath,
    /// A listed path resolved to a list file itself; nesting is unsupported.
    NestedList,
}

impl ResolveError {
    /// A short description of the rejection.
    pub fn message(&self) -> (r: &'static str)
        ensures
            (*self == ResolveError::ShortLookahead ==> r@ == "input shorter than the lookahead"@),
            (*self == ResolveError::GzipDecode ==> r@ == "invalid gzip stream"@),
            (*self == ResolveError::InvalidText ==> r@ == "list line is not valid text"@),
            (*self == ResolveError::MissingPath ==> r@ == "list line names no existing path"@),
            (*self == ResolveError::NestedList ==> r@ == "a list file may not name a list file"@),
    {
        match self {
            ResolveError::ShortLookahead => "input shorter than the lookahead",
            ResolveError::GzipDecode => "invalid gzip stream",
            ResolveError::InvalidText => "list line is not valid text",
            ResolveError::MissingPath => "list line names no existing path",
            ResolveError::NestedList => "a list file may not name a list file",
        }
    }
}

/// The number of lookahead bytes a stream must yield before it is classified.
pub const LOOKAHEAD: usize = 4;

/// Whether a lookahead prefix announces a gzip stream: its first two bytes
/// are the gzip magic number.
pub open spec fn is_gzip_prefix(s: Seq<u8>) -> bool {
    s.len() >= 2 && s[0] == 0x1f && s[1] == 0x8b
}

/// Whether a lookahead prefix announces sequence-record content: it opens
/// with `@` or `>`. The record grammar itself is the collaborator's business.
pub open spec fn is_record_prefix(s: Seq<u8>) -> bool {
    s.len() >= 1 && (s[0] == 64 || s[0] == 62)
}

/// The spec-level counterpart of `Classified`.
pub enum SpecClass {
    Sequence(Seq<u8>),
    List(Seq<Seq<u8>>),
}

/// The entries of a list file's lines: each line must be valid text
/// (`None` otherwise); blank and comment lines are dropped; the rest are
/// trimmed and kept in line order.
pub open spec fn spec_list_entries(lines: Seq<Seq<u8>>) -> Option<Seq<Seq<u8>>>
    decreases lines.len(),
{
    if lines.len() == 0 {
        Some(Seq::<Seq<u8>>::empty())
    } else if !vstd::utf8::valid_utf8(lines[0]) {
        None
    } else {
        match spec_list_entries(lines.drop_first()) {
            None => None,
            Some(rest) => if skip_line(lines[0]) {
                Some(rest)
            } else {
                Some(seq![spec_trim(lines[0])] + rest)
            },
        }
    }
}

/// Classification of a payload whose compression, if any, is already
/// unwrapped: four bytes must be there; `@` or `>` opens sequence-record
/// content; anything else is a list file, read line by line.
pub open spec fn spec_classify_payload(p: Seq<u8>) -> Result<SpecClass, ResolveError> {
    if p.len() < LOOKAHEAD {
        Err(ResolveError::ShortLookahead)
    } else if is_record_prefix(p) {
        Ok(SpecClass::Sequence(p))
    } else {
        match spec_list_entries(spec_lines(p)) {
            None => Err(ResolveError::InvalidText),
            Some(entries) => Ok(SpecClass::List(entries)),
        }
    }
}

/// Classification of an input's bytes: after the first lookahead, a gzip
/// prefix has exactly one decompression layer unwrapped, and the payload —
/// decompressed or the input itself — is classified by its own lookahead.
pub open spec fn spec_classify(content: Seq<u8>) -> Result<SpecClass, ResolveError> {
    if content.len() < LOOKAHEAD {
        Err(ResolveError::ShortLookahead)
    } else if is_gzip_prefix(content) {
        match gunzip_of(content) {
            None => Err(ResolveError::GzipDecode),
            Some(p) => spec_classify_payload(p),
        }
    } else {
        spec_classify_payload(content)
    }
}

/// A classified input: the full payload of a sequence-record stream — the
/// lookahead bytes still in front — or the entries of a list file, in line
/// order.
#[derive(Debug, PartialEq, Eq)]
pub enum Classified {
    Sequence(Vec<u8>),
    List(Vec<Vec<u8>>),
}

/// Classify an input's bytes as `spec_classify` lays it down.
pub fn classify(content: Vec<u8>) -> (r: Result<Classified, ResolveError>)
    ensures
        (match (r, spec_classify(content@)) {
            (Ok(Classified::Sequence(v)), Ok(SpecClass::Sequence(s))) => v@ == s,
            (Ok(Classified::List(es)), Ok(SpecClass::List(ss))) => es.deep_view() == ss,
            (Err(e), Err(se)) => e == se,
            _ => false,
        }),
{
    if content.len() < LOOKAHEAD {
        return Err(ResolveError::ShortLookahead);
    }
    let payload: Vec<u8> = if content[0] == 0x1f && content[1] == 0x8b {
        match gunzip(&content) {
            None => {
                return Err(ResolveError::GzipDecode);
            },
            Some(p) => p,
        }
    } else {
        content
    };
    if payload.len() < LOOKAHEAD {
        return Err(ResolveError::ShortLookahead);
    }
    if payload[0] == 64 || payload[0] == 62 {
        return Ok(Classified::Sequence(payload));
    }
    let lines = split_lines(&payload);
    match list_entries(&lines) {
        None => Err(ResolveError::InvalidText),
        Some(entries) => Ok(Classified::List(entries)),
    }
}

/// Relies on `str::from_utf8`: it accepts exactly the byte sequences that
/// are valid UTF-8, the property `vstd::utf8::valid_utf8` describes.
#[verifier::external_body]
fn is_text(data: &Vec<u8>) -> (r: bool)
    ensures
        r == vstd::utf8::valid_utf8(data@),
{
    std::str::from_utf8(data.as_slice()).is_ok()
}

/// The entries of the given lines, as `spec_list_entries` lays them down.
fn list_entries(lines: &Vec<Vec<u8>>) -> (r: Option<Vec<Vec<u8>>>)
    ensures
        (match (r, spec_list_entries(lines.deep_view())) {
            (Some(es), Some(ss)) => es.deep_view() == ss,
            (None, None) => true,
            _ => false,
        }),
{
    let ghost all = lines.deep_view();
    let mut acc: Vec<Vec<u8>> = Vec::new();
    let mut i: usize = 0;
    proof {
        assert(all.skip(0) =~= all);
        if spec_list_entries(all) is Some {
            assert(acc.deep_view() + spec_list_entries(all)->Some_0
                =~= spec_list_entries(all)->Some_0);
        }
    }
    while i < lines.len()
        invariant
            i <= lines@.len(),
            all == lines.deep_view(),
            (match (spec_list_entries(all), spec_list_entries(all.skip(i as int))) {
                (Some(full), Some(rest)) => full == acc.deep_view() + rest,
                (None, None) => true,
                _ => false,
            }),
        decreases lines@.len() - i,
    {
        proof {
            assert(all.skip(i as int).drop_first() =~= all.skip(i as int + 1));
            assert(all.skip(i as int)[0] == lines@[i as int].deep_view());
            assert(lines@[i as int].deep_view() =~= lines@[i as int]@);
        }
        let line = &lines[i];
        if !is_text(line) {
            proof {
                assert(!vstd::utf8::valid_utf8(all.skip(i as int)[0]));
                assert(spec_list_entries(all.skip(i as int)) is None);
            }
            return None;
        }
        let trimmed = trim(line);
        if !(trimmed.len() == 0 || trimmed[0] == 35) {
            let ghost old_acc = acc.deep_view();
            acc.push(trimmed);
            proof {
                assert(acc.deep_view() =~~= old_acc.push(spec_trim(all.skip(i as int)[0])));
                if spec_list_entries(all.skip(i as int + 1)) is Some {
                    assert(old_acc + (seq![spec_trim(all.skip(i as int)[0])]
                        + spec_list_entries(all.skip(i as int + 1))->Some_0)
                        =~= acc.deep_view() + spec_list_entries(all.skip(i as int + 1))->Some_0);
                }
            }
        }
        i = i + 1;
    }
    proof {
        assert(all.skip(all.len() as int) =~= Seq::<Seq<u8>>::empty());
        if spec_list_entries(all) is Some {
            assert(acc.deep_view() + Seq::<Seq<u8>>::empty() =~= acc.deep_view());
        }
    }
    Some(acc)
}

/// The ordered payloads of an aggregate: each listed path's bytes (`None`
/// where the path does not exist) classified in line order. The first
/// missing path, failing classification, or nested list file rejects the
/// whole list — no partial aggregate survives.
pub open spec fn spec_assemble(contents: Seq<Option<Seq<u8>>>) -> Result<
    Seq<Seq<u8>>,
    ResolveError,
>
    decreases contents.len(),
{
    if contents.len() == 0 {
        Ok(Seq::<Seq<u8>>::empty())
    } else {
        match contents[0] {
            None => Err(ResolveError::MissingPath),
            Some(c) => match spec_classify(c) {
                Err(e) => Err(e),
                Ok(SpecClass::List(_)) => Err(ResolveError::NestedList),
                Ok(SpecClass::Sequence(p)) => match spec_assemble(contents.drop_first()) {
                    Err(e) => Err(e),
                    Ok(rest) => Ok(seq![p] + rest),
                },
            },
        }
    }
}

/// Turn the listed paths' bytes into the aggregate's payloads, in order, as
/// `spec_assemble` lays it down. `None` stands for a path that does not
/// exist; any failure rejects the whole list.
pub fn assemble(contents: Vec<Option<Vec<u8>>>) -> (r: Result<Vec<Vec<u8>>, ResolveError>)
    ensures
        (match (r, spec_assemble(contents.deep_view())) {
            (Ok(ps), Ok(ss)) => ps.deep_view() == ss,
            (Err(e), Err(se)) => e == se,
            _ => false,
        }),
{
    let ghost all = contents.deep_view();
    let mut remaining = contents;
    let mut acc: Vec<Vec<u8>> = Vec::new();
    proof {
        if spec_assemble(all) is Ok {
            assert(acc.deep_view() + spec_assemble(all)->Ok_0 =~= spec_assemble(all)->Ok_0);
        }
    }
    while remaining.len() > 0
        invariant
            all == contents.deep_view(),
            (match (spec_assemble(all), spec_assemble(remaining.deep_view())) {
                (Ok(full), Ok(rest)) => full == acc.deep_view() + rest,
                (Err(e1), Err(e2)) => e1 == e2,
                _ => false,
            }),
        decreases remaining@.len(),
    {
        let ghost before = remaining.deep_view();
        let item = remaining.remove(0);
        proof {
            assert(remaining.deep_view() =~~= before.drop_first());
            assert(before[0] == item.deep_view());
        }
        match item {
            None => {
                return Err(ResolveError::MissingPath);
            },
            Some(c) => {
                proof {
                    assert(item.deep_view() == Some(c.deep_view()));
                    assert(c.deep_view() =~= c@);
                }
                match classify(c) {
                    Err(e) => {
                        return Err(e);
                    },
                    Ok(Classified::List(_)) => {
                        return Err(ResolveError::NestedList);
                    },
                    Ok(Classified::Sequence(p)) => {
                        let ghost old_acc = acc.deep_view();
                        let ghost rest = remaining.deep_view();
                        acc.push(p);
                        proof {
                            assert(acc.deep_view() =~~= old_acc.push(p@));
                            if spec_assemble(rest) is Ok {
                                assert(old_acc + (seq![p@] + spec_assemble(rest)->Ok_0)
                                    =~~= acc.deep_view() + spec_assemble(rest)->Ok_0);
                            }
                        }
                    },
                }
            },
        }
    }
    proof {
        if spec_assemble(all) is Ok {
            assert(acc.deep_view() + Seq::<Seq<u8>>::empty() =~= acc.deep_view());
        }
    }
    Ok(acc)
}

/// Law: decompression is transparent to classification. A gzip stream whose
/// decompressed payload opens with a record prefix classifies exactly as the
/// payload itself does — both resolve to a single source over the identical
/// bytes, so both yield the identical record stream.
pub proof fn lemma_gzip_transparent(g: Seq<u8>, u: Seq<u8>)
    requires
        g.len() >= LOOKAHEAD,
        is_gzip_prefix(g),
        gunzip_of(g) == Some(u),
        u.len() >= LOOKAHEAD,
        is_record_prefix(u),
    ensures
        spec_classify(g) == spec_classify(u),
        spec_classify(g) == Ok::<SpecClass, ResolveError>(SpecClass::Sequence(u)),
{
    assert(!is_gzip_prefix(u));
}

/// Law: the lookahead loses no bytes. Content that opens with `@` or `>`
/// resolves to a single source whose payload is the whole content, the four
/// sniffed bytes still at its front.
pub proof fn lemma_lookahead_kept(c: Seq<u8>)
    requires
        c.len() >= LOOKAHEAD,
        is_record_prefix(c),
    ensures
        spec_classify(c) == Ok::<SpecClass, ResolveError>(SpecClass::Sequence(c)),
{
    assert(!is_gzip_prefix(c));
}

/// Law: a list whose every entry exists and classifies as sequence-record
/// content assembles into exactly one payload per entry, in entry order.
pub proof fn lemma_aggregate_order(contents: Seq<Option<Seq<u8>>>)
    requires
        forall|k: int|
            0 <= k < contents.len() ==> contents[k] is Some && spec_classify(
                contents[k]->Some_0,
            ) matches Ok(SpecClass::Sequence(_)),
    ensures
        spec_assemble(contents) is Ok,
        spec_assemble(contents)->Ok_0.len() == contents.len(),
        forall|k: int|
            0 <= k < contents.len() ==> spec_classify(contents[k]->Some_0) == Ok::<
                SpecClass,
                ResolveError,
            >(SpecClass::Sequence(spec_assemble(contents)->Ok_0[k])),
    decreases contents.len(),
{
    if contents.len() > 0 {
        let rest = contents.drop_first();
        assert(forall|k: int| 0 <= k < rest.len() ==> rest[k] == contents[k + 1]);
        lemma_aggregate_order(rest);
        let p = spec_classify(contents[0]->Some_0)->Ok_0->Sequence_0;
        assert(spec_assemble(contents) == Ok::<Seq<Seq<u8>>, ResolveError>(
            seq![p] + spec_assemble(rest)->Ok_0,
        ));
        assert forall|k: int| 0 <= k < contents.len() implies spec_classify(contents[k]->Some_0)
            == Ok::<SpecClass, ResolveError>(
            SpecClass::Sequence(spec_assemble(contents)->Ok_0[k]),
        ) by {
            if k > 0 {
                assert(rest[k - 1] == contents[k]);
                assert(spec_assemble(contents)->Ok_0[k] == spec_assemble(rest)->Ok_0[k - 1]);
            }
        }
    }
}

/// Law: a list entry naming no existing path rejects the whole list, even
/// where every earlier entry exists and resolves — no partial aggregate
/// leaks out.
pub proof fn lemma_missing_rejects_whole(contents: Seq<Option<Seq<u8>>>, k: int)
    requires
        0 <= k < contents.len(),
        contents[k] is None,
        forall|j: int|
            0 <= j < k ==> contents[j] is Some && spec_classify(
                contents[j]->Some_0,
            ) matches Ok(SpecClass::Sequence(_)),
    ensures
        spec_assemble(contents) == Err::<Seq<Seq<u8>>, ResolveError>(ResolveError::MissingPath),
    decreases k,
{
    if k > 0 {
        let rest = contents.drop_first();
        assert(forall|j: int| 0 <= j < rest.len() ==> rest[j] == contents[j + 1]);
        lemma_missing_rejects_whole(rest, k - 1);
    }
}

/// Law: a list file of only blank and comment lines has no entries; its
/// aggregate is legitimately empty.
pub proof fn lemma_only_comments_no_entries(lines: Seq<Seq<u8>>)
    requires
        forall|k: int|
            0 <= k < lines.len() ==> vstd::utf8::valid_utf8(lines[k]) && skip_line(lines[k]),
    ensures
        spec_list_entries(lines) == Some(Seq::<Seq<u8>>::empty()),
    decreases lines.len(),
{
    if lines.len() > 0 {
        let rest = lines.drop_first();
        assert(forall|k: int| 0 <= k < rest.len() ==> rest[k] == lines[k + 1]);
        lemma_only_comments_no_entries(rest);
    }
}

} // verus!


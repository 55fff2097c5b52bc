//! Paths of documents: two segments behind slashes, in which a tilde stands for
//! itself as `~0` and for a slash as `~1`.
use vstd::prelude::*;

use crate::errors;
use crate::errors::{error, Error, ErrorCode};

verus! {

pub const SLASH: u8 = 47;

pub const TILDE: u8 = 126;

pub const ZERO: u8 = 48;

pub const ONE: u8 = 49;

/// How one byte of a name is written in a segment.
pub open spec fn escape_byte(byte: u8) -> Seq<u8> {
    if byte == TILDE {
        seq![TILDE, ZERO]
    } else if byte == SLASH {
        seq![TILDE, ONE]
    } else {
        seq![byte]
    }
}

/// A name as a segment.
pub open spec fn escape(name: Seq<u8>) -> Seq<u8>
    decreases name.len(),
{
    if name.len() == 0 {
        Seq::empty()
    } else {
        escape(name.drop_last()) + escape_byte(name.last())
    }
}

/// The path of a document.
pub open spec fn path_of(collection: Seq<u8>, id: Seq<u8>) -> Seq<u8> {
    seq![SLASH] + escape(collection) + seq![SLASH] + escape(id)
}

pub open spec fn fault(message: &'static str) -> Error {
    errors::refusal(ErrorCode::Corruption, message)
}

/// The name that a segment spells from `i` up to `end`, behind what it spelled
/// before.
pub open spec fn decoded(path: Seq<u8>, i: int, end: int, name: Seq<u8>) -> Result<Seq<u8>, Error>
    decreases end - i,
{
    if i >= end {
        Ok(name)
    } else if path[i] == SLASH {
        Err(fault("receipt path has an extra segment"))
    } else if path[i] == TILDE {
        if i + 1 < end && path[i + 1] == ZERO {
            decoded(path, i + 2, end, name.push(TILDE))
        } else if i + 1 < end && path[i + 1] == ONE {
            decoded(path, i + 2, end, name.push(SLASH))
        } else {
            Err(fault("receipt path escape is not canonical"))
        }
    } else {
        decoded(path, i + 1, end, name.push(path[i]))
    }
}

/// Where the first slash stands from `i` on.
pub open spec fn slash_at(path: Seq<u8>, i: int) -> Option<int>
    decreases path.len() - i,
{
    if i < 0 || i >= path.len() {
        None
    } else if path[i] == SLASH {
        Some(i)
    } else {
        slash_at(path, i + 1)
    }
}

/// A decoded segment, unless its name is refused.
pub open spec fn named(segment: Result<Seq<u8>, Error>, refusal: Option<Error>) -> Result<
    Seq<u8>,
    Error,
> {
    match (segment, refusal) {
        (Err(e), _) => Err(e),
        (Ok(_), Some(e)) => Err(e),
        (Ok(name), None) => Ok(name),
    }
}

/// The collection and the identity that a path names, given what refuses the decoded
/// names.
pub open spec fn parsed(
    path: Seq<u8>,
    collection_refusal: Option<Error>,
    id_refusal: Option<Error>,
) -> Result<(Seq<u8>, Seq<u8>), Error> {
    if path.len() == 0 || path[0] != SLASH {
        Err(fault("receipt path lacks root slash"))
    } else {
        match slash_at(path, 1) {
            None => Err(fault("receipt path lacks document segment")),
            Some(at) => match named(decoded(path, 1, at, Seq::empty()), collection_refusal) {
                Err(e) => Err(e),
                Ok(collection) => match named(
                    decoded(path, at + 1, path.len() as int, Seq::empty()),
                    id_refusal,
                ) {
                    Err(e) => Err(e),
                    Ok(id) => Ok((collection, id)),
                },
            },
        }
    }
}

fn push_escaped(path: &mut Vec<u8>, name: &Vec<u8>)
    ensures
        final(path)@ == old(path)@ + escape(name@),
{
    let ghost start = path@;
    let mut i: usize = 0;
    assert(start =~= start + escape(name@.take(0)));
    while i < name.len()
        invariant
            i <= name.len(),
            path@ == start + escape(name@.take(i as int)),
        decreases name.len() - i,
    {
        let byte: u8 = name[i];
        if byte == TILDE {
            path.push(TILDE);
            path.push(ZERO);
        } else if byte == SLASH {
            path.push(TILDE);
            path.push(ONE);
        } else {
            path.push(byte);
        }
        proof {
            let more = name@.take(i + 1);
            assert(more.drop_last() =~= name@.take(i as int));
            assert(more.last() == byte);
            assert(path@ =~= start + escape(more));
        }
        i = i + 1;
    }
    assert(name@.take(name@.len() as int) =~= name@);
}

/// The path of a document.
pub fn document_path(collection: &Vec<u8>, id: &Vec<u8>) -> (path: Vec<u8>)
    ensures
        path@ == path_of(collection@, id@),
{
    let mut path: Vec<u8> = Vec::new();
    path.push(SLASH);
    assert(path@ =~= seq![SLASH]);
    push_escaped(&mut path, collection);
    path.push(SLASH);
    assert(path@ =~= seq![SLASH] + escape(collection@) + seq![SLASH]);
    push_escaped(&mut path, id);
    path
}

fn decode_path_segment(path: &Vec<u8>, start: usize, end: usize) -> (r: Result<Vec<u8>, Error>)
    requires
        start <= end <= path.len(),
    ensures
        match r {
            Err(e) => decoded(path@, start as int, end as int, Seq::empty()) == Err::<
                Seq<u8>,
                Error,
            >(e),
            Ok(name) => decoded(path@, start as int, end as int, Seq::empty()) == Ok::<
                Seq<u8>,
                Error,
            >(name@),
        },
{
    let mut name: Vec<u8> = Vec::new();
    let mut i: usize = start;
    while i < end
        invariant
            start <= i <= end <= path.len(),
            decoded(path@, start as int, end as int, Seq::empty()) == decoded(
                path@,
                i as int,
                end as int,
                name@,
            ),
        decreases end - i,
    {
        let byte: u8 = path[i];
        if byte == SLASH {
            return Err(error(ErrorCode::Corruption, "receipt path has an extra segment"));
        }
        if byte == TILDE {
            if i + 1 < end && path[i + 1] == ZERO {
                name.push(TILDE);
            } else if i + 1 < end && path[i + 1] == ONE {
                name.push(SLASH);
            } else {
                return Err(error(ErrorCode::Corruption, "receipt path escape is not canonical"));
            }
            i = i + 2;
        } else {
            name.push(byte);
            i = i + 1;
        }
    }
    Ok(name)
}

/// The collection and the identity that a path names, given what refuses the decoded
/// names.
pub fn parse_path(path: &Vec<u8>, collection_refusal: Option<Error>, id_refusal: Option<Error>) -> (r:
    Result<(Vec<u8>, Vec<u8>), Error>)
    ensures
        match r {
            Err(e) => parsed(path@, collection_refusal, id_refusal) == Err::<
                (Seq<u8>, Seq<u8>),
                Error,
            >(e),
            Ok((collection, id)) => parsed(path@, collection_refusal, id_refusal) == Ok::<
                (Seq<u8>, Seq<u8>),
                Error,
            >((collection@, id@)),
        },
{
    if path.len() == 0 || path[0] != SLASH {
        return Err(error(ErrorCode::Corruption, "receipt path lacks root slash"));
    }
    let mut at: usize = 1;
    while at < path.len() && path[at] != SLASH
        invariant
            1 <= at <= path.len(),
            slash_at(path@, 1) == slash_at(path@, at as int),
        decreases path.len() - at,
    {
        at = at + 1;
    }
    if at == path.len() {
        return Err(error(ErrorCode::Corruption, "receipt path lacks document segment"));
    }
    let collection = decode_path_segment(path, 1, at)?;
    match collection_refusal {
        Some(refusal) => return Err(refusal),
        None => {},
    }
    let id = decode_path_segment(path, at + 1, path.len())?;
    match id_refusal {
        Some(refusal) => return Err(refusal),
        None => {},
    }
    Ok((collection, id))
}

// ---------------------------------------------------------------------
// A path names the document that it was made of
// ---------------------------------------------------------------------

proof fn lemma_escape_has_no_slash(name: Seq<u8>)
    ensures
        forall|i: int| 0 <= i < escape(name).len() ==> #[trigger] escape(name)[i] != SLASH,
    decreases name.len(),
{
    if name.len() > 0 {
        lemma_escape_has_no_slash(name.drop_last());
        let front = escape(name.drop_last());
        assert forall|i: int| 0 <= i < escape(name).len() implies #[trigger] escape(name)[i]
            != SLASH by {
            if i < front.len() {
                assert(escape(name)[i] == front[i]);
            }
        }
    }
}

/// What a segment spells is what its front spells, and then its last byte.
proof fn lemma_decoded_step(path: Seq<u8>, start: int, middle: int, name: Seq<u8>, byte: u8)
    requires
        0 <= start <= middle,
        middle + escape_byte(byte).len() <= path.len(),
        path.subrange(start, middle) == escape(name),
        path.subrange(middle, middle + escape_byte(byte).len()) == escape_byte(byte),
    ensures
        forall|end: int, out: Seq<u8>|
            middle + escape_byte(byte).len() <= end <= path.len() ==> #[trigger] decoded(
                path,
                middle,
                end,
                out,
            ) == decoded(path, middle + escape_byte(byte).len(), end, out.push(byte)),
{
    let part = path.subrange(middle, middle + escape_byte(byte).len());
    assert(part[0] == path[middle]);
    if byte == TILDE || byte == SLASH {
        assert(part[1] == path[middle + 1]);
    }
}

/// A written name is spelled again, up to `end`.
proof fn lemma_decoded(path: Seq<u8>, start: int, name: Seq<u8>, end: int, out: Seq<u8>)
    requires
        0 <= start,
        start + escape(name).len() <= end <= path.len(),
        path.subrange(start, start + escape(name).len()) == escape(name),
    ensures
        decoded(path, start, end, out) == decoded(
            path,
            start + escape(name).len(),
            end,
            out + name,
        ),
    decreases name.len(),
{
    if name.len() == 0 {
        assert(out + name =~= out);
    } else {
        let front = name.drop_last();
        let byte = name.last();
        let middle = start + escape(front).len();
        let whole = path.subrange(start, start + escape(name).len());
        assert(path.subrange(start, middle) =~= escape(front)) by {
            assert(whole.take(escape(front).len() as int) =~= escape(front));
            assert(path.subrange(start, middle) =~= whole.take(escape(front).len() as int));
        }
        assert(path.subrange(middle, middle + escape_byte(byte).len()) =~= escape_byte(byte)) by {
            assert(whole.skip(escape(front).len() as int) =~= escape_byte(byte));
            assert(path.subrange(middle, middle + escape_byte(byte).len()) =~= whole.skip(
                escape(front).len() as int,
            ));
        }
        lemma_decoded(path, start, front, end, out);
        lemma_decoded_step(path, start, middle, front, byte);
        assert(decoded(path, middle, end, out + front) == decoded(
            path,
            middle + escape_byte(byte).len(),
            end,
            (out + front).push(byte),
        ));
        assert((out + front).push(byte) =~= out + name);
    }
}

proof fn lemma_slash_at(path: Seq<u8>, i: int, at: int)
    requires
        0 <= i <= at < path.len(),
        path[at] == SLASH,
        forall|j: int| i <= j < at ==> path[j] != SLASH,
    ensures
        slash_at(path, i) == Some(at),
    decreases at - i,
{
    if i < at {
        lemma_slash_at(path, i + 1, at);
    }
}

/// The path of a document names that document, whatever its names hold.
pub proof fn lemma_path(collection: Seq<u8>, id: Seq<u8>)
    ensures
        parsed(path_of(collection, id), None, None) == Ok::<(Seq<u8>, Seq<u8>), Error>(
            (collection, id),
        ),
{
    let path = path_of(collection, id);
    let at: int = 1 + escape(collection).len() as int;
    lemma_escape_has_no_slash(collection);
    assert(path.subrange(1, at) =~= escape(collection));
    assert(path[at] == SLASH);
    assert forall|j: int| 1 <= j < at implies path[j] != SLASH by {
        assert(path[j] == escape(collection)[j - 1]);
    }
    lemma_slash_at(path, 1, at);
    lemma_decoded(path, 1, collection, at, Seq::empty());
    assert(Seq::<u8>::empty() + collection =~= collection);
    assert(path.subrange(at + 1, path.len() as int) =~= escape(id));
    lemma_decoded(path, at + 1, id, path.len() as int, Seq::empty());
    assert(Seq::<u8>::empty() + id =~= id);
}

/// Two documents of one path are the same.
pub proof fn lemma_paths_differ(a: Seq<u8>, b: Seq<u8>, c: Seq<u8>, d: Seq<u8>)
    requires
        path_of(a, b) == path_of(c, d),
    ensures
        a == c,
        b == d,
{
    lemma_path(a, b);
    lemma_path(c, d);
}

} // verus!

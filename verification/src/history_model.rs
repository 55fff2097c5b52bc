//! Hot and archived history: collections, references and archive manifests.
use vstd::prelude::*;

use crate::digest::{Digest, Name};
use crate::errors::Error;
use crate::texts::copy_text;

verus! {

/// The value that a document's body holds under an indexed path.
#[derive(Clone, Copy, Debug, PartialEq, Eq, Structural)]
pub struct IndexedField {
    pub path: Name,
    pub value_sha256: Digest,
}

/// How many bytes an entry's key and value are encoded in.
#[derive(Clone, Copy, Debug, PartialEq, Eq, Structural)]
pub struct EntrySize {
    pub id: u64,
    pub value: u64,
}

/// The bounds of one archive.
#[derive(Clone, Copy, Debug, PartialEq, Eq, Structural)]
pub struct ArchiveBounds {
    pub max_chunks: u64,
    pub max_documents: u64,
    pub max_manifest_bytes: u64,
    pub max_chunk_bytes: u64,
    pub max_source_bytes: u64,
}

/// A document: its identity, and what of its body the engine accounts for.
pub struct Document {
    pub id: Vec<u8>,
    pub version: u64,
    pub sha256: Digest,
    pub encoded_bytes: u64,
    pub body_bytes: u64,
    pub fields: Vec<IndexedField>,
}

pub struct DocumentView {
    pub id: Seq<u8>,
    pub version: u64,
    pub sha256: Digest,
    pub encoded_bytes: u64,
    pub body_bytes: u64,
    pub fields: Seq<IndexedField>,
}

impl View for Document {
    type V = DocumentView;

    open spec fn view(&self) -> DocumentView {
        DocumentView {
            id: self.id@,
            version: self.version,
            sha256: self.sha256,
            encoded_bytes: self.encoded_bytes,
            body_bytes: self.body_bytes,
            fields: self.fields@,
        }
    }
}

pub fn copy_fields(fields: &Vec<IndexedField>) -> (copy: Vec<IndexedField>)
    ensures
        copy@ == fields@,
{
    let mut copy: Vec<IndexedField> = Vec::new();
    let mut i: usize = 0;
    while i < fields.len()
        invariant
            i <= fields.len(),
            copy@ == fields@.subrange(0, i as int),
        decreases fields.len() - i,
    {
        copy.push(fields[i]);
        assert(fields@.subrange(0, i + 1) =~= fields@.subrange(0, i as int).push(fields@[i as int]));
        i = i + 1;
    }
    assert(fields@.subrange(0, fields@.len() as int) =~= fields@);
    copy
}

impl Document {
    pub fn copy(&self) -> (document: Self)
        ensures
            document@ == self@,
    {
        Document {
            id: copy_text(&self.id),
            version: self.version,
            sha256: self.sha256,
            encoded_bytes: self.encoded_bytes,
            body_bytes: self.body_bytes,
            fields: copy_fields(&self.fields),
        }
    }
}

pub open spec fn documents_view(documents: Seq<Document>) -> Seq<DocumentView> {
    Seq::new(documents.len(), |i: int| documents[i]@)
}

/// The first chunk of a manifest whose identities or digests are not of their form, and
/// why.
#[derive(Clone, Copy, Debug)]
pub struct ChunkRefusal {
    pub at: u64,
    pub refusal: Error,
}

/// What refuses the forms of an archive's texts: of where it is stored, of its
/// manifest's names, of its manifest's chunks, and of its manifest's object.
#[derive(Clone, Copy, Debug)]
pub struct ArchiveForms {
    pub destination: Option<Error>,
    pub names: Option<Error>,
    pub chunk: Option<ChunkRefusal>,
    pub object: Option<Error>,
}

pub open spec fn accepted_forms() -> ArchiveForms {
    ArchiveForms { destination: None, names: None, chunk: None, object: None }
}

impl ArchiveForms {
    /// Nothing is refused.
    pub fn accepted() -> (forms: Self)
        ensures
            forms == accepted_forms(),
    {
        ArchiveForms { destination: None, names: None, chunk: None, object: None }
    }
}

/// A reference to an archived document, under its identity, and what refuses the form of
/// its identity or digest, if anything.
pub struct Archived {
    pub id: Vec<u8>,
    pub version: u64,
    pub archive_id: Name,
    pub chunk_index: u64,
    pub document_sha256: Digest,
    pub document_bytes: u64,
    pub indexed_fields: Vec<IndexedField>,
    pub size: EntrySize,
    pub form_refusal: Option<Error>,
}

pub struct ArchivedView {
    pub id: Seq<u8>,
    pub version: u64,
    pub archive_id: Name,
    pub chunk_index: u64,
    pub document_sha256: Digest,
    pub document_bytes: u64,
    pub indexed_fields: Seq<IndexedField>,
    pub size: EntrySize,
    pub form_refusal: Option<Error>,
}

impl View for Archived {
    type V = ArchivedView;

    open spec fn view(&self) -> ArchivedView {
        ArchivedView {
            id: self.id@,
            version: self.version,
            archive_id: self.archive_id,
            chunk_index: self.chunk_index,
            document_sha256: self.document_sha256,
            document_bytes: self.document_bytes,
            indexed_fields: self.indexed_fields@,
            size: self.size,
            form_refusal: self.form_refusal,
        }
    }
}

impl Archived {
    pub fn copy(&self) -> (archived: Self)
        ensures
            archived@ == self@,
    {
        Archived {
            id: copy_text(&self.id),
            version: self.version,
            archive_id: self.archive_id,
            chunk_index: self.chunk_index,
            document_sha256: self.document_sha256,
            document_bytes: self.document_bytes,
            indexed_fields: copy_fields(&self.indexed_fields),
            size: self.size,
            form_refusal: self.form_refusal,
        }
    }
}

pub open spec fn archived_view(rows: Seq<Archived>) -> Seq<ArchivedView> {
    Seq::new(rows.len(), |i: int| rows[i]@)
}

/// One chunk of an archive: its object, and the interval of identities it covers.
pub struct Descriptor {
    pub object_id: u128,
    pub ciphertext_sha256: Digest,
    pub plaintext_sha256: Digest,
    pub plaintext_bytes: u64,
    pub document_count: u64,
    pub first_id: Vec<u8>,
    pub last_id: Vec<u8>,
}

pub struct DescriptorView {
    pub object_id: u128,
    pub ciphertext_sha256: Digest,
    pub plaintext_sha256: Digest,
    pub plaintext_bytes: u64,
    pub document_count: u64,
    pub first_id: Seq<u8>,
    pub last_id: Seq<u8>,
}

impl View for Descriptor {
    type V = DescriptorView;

    open spec fn view(&self) -> DescriptorView {
        DescriptorView {
            object_id: self.object_id,
            ciphertext_sha256: self.ciphertext_sha256,
            plaintext_sha256: self.plaintext_sha256,
            plaintext_bytes: self.plaintext_bytes,
            document_count: self.document_count,
            first_id: self.first_id@,
            last_id: self.last_id@,
        }
    }
}

impl Descriptor {
    pub fn copy(&self) -> (descriptor: Self)
        ensures
            descriptor@ == self@,
    {
        Descriptor {
            object_id: self.object_id,
            ciphertext_sha256: self.ciphertext_sha256,
            plaintext_sha256: self.plaintext_sha256,
            plaintext_bytes: self.plaintext_bytes,
            document_count: self.document_count,
            first_id: copy_text(&self.first_id),
            last_id: copy_text(&self.last_id),
        }
    }
}

pub open spec fn descriptors_view(chunks: Seq<Descriptor>) -> Seq<DescriptorView> {
    Seq::new(chunks.len(), |i: int| chunks[i]@)
}

/// An archive's manifest, and how many bytes it is encoded in.
pub struct Manifest {
    pub archive_id: Name,
    pub tenant: Name,
    pub source_incarnation: u128,
    pub collection: Name,
    pub cutoff_revision: u64,
    pub source_schema_epoch: u64,
    pub destination: Name,
    pub document_count: u64,
    pub chunks: Vec<Descriptor>,
    pub encoded_bytes: u64,
}

pub struct ManifestView {
    pub archive_id: Name,
    pub tenant: Name,
    pub source_incarnation: u128,
    pub collection: Name,
    pub cutoff_revision: u64,
    pub source_schema_epoch: u64,
    pub destination: Name,
    pub document_count: u64,
    pub chunks: Seq<DescriptorView>,
    pub encoded_bytes: u64,
}

impl View for Manifest {
    type V = ManifestView;

    open spec fn view(&self) -> ManifestView {
        ManifestView {
            archive_id: self.archive_id,
            tenant: self.tenant,
            source_incarnation: self.source_incarnation,
            collection: self.collection,
            cutoff_revision: self.cutoff_revision,
            source_schema_epoch: self.source_schema_epoch,
            destination: self.destination,
            document_count: self.document_count,
            chunks: descriptors_view(self.chunks@),
            encoded_bytes: self.encoded_bytes,
        }
    }
}

impl Manifest {
    pub fn copy(&self) -> (manifest: Self)
        ensures
            manifest@ == self@,
    {
        let mut chunks: Vec<Descriptor> = Vec::new();
        let mut i: usize = 0;
        while i < self.chunks.len()
            invariant
                i <= self.chunks.len(),
                chunks.len() == i,
                forall|j: int| 0 <= j < i ==> (#[trigger] chunks@[j])@ == self.chunks@[j]@,
            decreases self.chunks.len() - i,
        {
            chunks.push(self.chunks[i].copy());
            i = i + 1;
        }
        assert(descriptors_view(chunks@) =~= descriptors_view(self.chunks@));
        Manifest {
            archive_id: self.archive_id,
            tenant: self.tenant,
            source_incarnation: self.source_incarnation,
            collection: self.collection,
            cutoff_revision: self.cutoff_revision,
            source_schema_epoch: self.source_schema_epoch,
            destination: self.destination,
            document_count: self.document_count,
            chunks,
            encoded_bytes: self.encoded_bytes,
        }
    }
}

/// An archive that was published.
pub struct Retained {
    pub manifest: Manifest,
    pub storage_destination: Name,
    /// The backup session that the archive's objects were restored from, if any.
    pub storage_backup_session: Option<u128>,
    pub manifest_object_id: u128,
    pub manifest_ciphertext_sha256: Digest,
    pub published_revision: u64,
    pub size: EntrySize,
    pub forms: ArchiveForms,
}

pub struct RetainedView {
    pub manifest: ManifestView,
    pub storage_destination: Name,
    pub storage_backup_session: Option<u128>,
    pub manifest_object_id: u128,
    pub manifest_ciphertext_sha256: Digest,
    pub published_revision: u64,
    pub size: EntrySize,
    pub forms: ArchiveForms,
}

impl View for Retained {
    type V = RetainedView;

    open spec fn view(&self) -> RetainedView {
        RetainedView {
            manifest: self.manifest@,
            storage_destination: self.storage_destination,
            storage_backup_session: self.storage_backup_session,
            manifest_object_id: self.manifest_object_id,
            manifest_ciphertext_sha256: self.manifest_ciphertext_sha256,
            published_revision: self.published_revision,
            size: self.size,
            forms: self.forms,
        }
    }
}

pub open spec fn archives_view(archives: Seq<Retained>) -> Seq<RetainedView> {
    Seq::new(archives.len(), |i: int| archives[i]@)
}

/// A collection: what its definition allows, its hot documents and its references,
/// each in ascending order of identity.
pub struct Collection {
    pub name: Name,
    pub archivable: bool,
    pub append_only: bool,
    pub text_indexed: bool,
    pub strict_read_audit: bool,
    pub paths: Vec<Name>,
    pub data_epoch: u64,
    pub documents: Vec<Document>,
    pub archived: Vec<Archived>,
    pub archived_bytes: u64,
}

pub struct CollectionView {
    pub name: Name,
    pub archivable: bool,
    pub append_only: bool,
    pub text_indexed: bool,
    pub strict_read_audit: bool,
    pub paths: Seq<Name>,
    pub data_epoch: u64,
    pub documents: Seq<DocumentView>,
    pub archived: Seq<ArchivedView>,
    pub archived_bytes: u64,
}

impl View for Collection {
    type V = CollectionView;

    open spec fn view(&self) -> CollectionView {
        CollectionView {
            name: self.name,
            archivable: self.archivable,
            append_only: self.append_only,
            text_indexed: self.text_indexed,
            strict_read_audit: self.strict_read_audit,
            paths: self.paths@,
            data_epoch: self.data_epoch,
            documents: documents_view(self.documents@),
            archived: archived_view(self.archived@),
            archived_bytes: self.archived_bytes,
        }
    }
}

pub open spec fn collections_view(collections: Seq<Collection>) -> Seq<CollectionView> {
    Seq::new(collections.len(), |i: int| collections[i]@)
}

/// A tenant's history, and the fences and limits that hold of it. Each collection
/// is listed once, and each archive in the order of publication.
pub struct HistoryState {
    pub tenant: Name,
    pub incarnation: u128,
    pub schema_epoch: u64,
    pub policy_epoch: u64,
    pub revision: u64,
    pub strict_read_audit: bool,
    pub max_archive_segments: u64,
    pub max_cursor_bytes: u64,
    pub max_query_candidates: u64,
    pub logical_bytes: u64,
    pub collections: Vec<Collection>,
    pub archives: Vec<Retained>,
    pub archive_bytes: u64,
}

pub struct HistoryView {
    pub tenant: Name,
    pub incarnation: u128,
    pub schema_epoch: u64,
    pub policy_epoch: u64,
    pub revision: u64,
    pub strict_read_audit: bool,
    pub max_archive_segments: u64,
    pub max_cursor_bytes: u64,
    pub max_query_candidates: u64,
    pub logical_bytes: u64,
    pub collections: Seq<CollectionView>,
    pub archives: Seq<RetainedView>,
    pub archive_bytes: u64,
}

impl View for HistoryState {
    type V = HistoryView;

    open spec fn view(&self) -> HistoryView {
        HistoryView {
            tenant: self.tenant,
            incarnation: self.incarnation,
            schema_epoch: self.schema_epoch,
            policy_epoch: self.policy_epoch,
            revision: self.revision,
            strict_read_audit: self.strict_read_audit,
            max_archive_segments: self.max_archive_segments,
            max_cursor_bytes: self.max_cursor_bytes,
            max_query_candidates: self.max_query_candidates,
            logical_bytes: self.logical_bytes,
            collections: collections_view(self.collections@),
            archives: archives_view(self.archives@),
            archive_bytes: self.archive_bytes,
        }
    }
}

/// A request to publish a verified archive.
pub struct PublishArchive {
    pub manifest: Manifest,
    pub manifest_object_id: u128,
    pub manifest_ciphertext_sha256: Digest,
    pub expected_policy_epoch: u64,
    pub forms: ArchiveForms,
}

pub struct PublishArchiveView {
    pub manifest: ManifestView,
    pub manifest_object_id: u128,
    pub manifest_ciphertext_sha256: Digest,
    pub expected_policy_epoch: u64,
    pub forms: ArchiveForms,
}

impl View for PublishArchive {
    type V = PublishArchiveView;

    open spec fn view(&self) -> PublishArchiveView {
        PublishArchiveView {
            manifest: self.manifest@,
            manifest_object_id: self.manifest_object_id,
            manifest_ciphertext_sha256: self.manifest_ciphertext_sha256,
            expected_policy_epoch: self.expected_policy_epoch,
            forms: self.forms,
        }
    }
}

} // verus!

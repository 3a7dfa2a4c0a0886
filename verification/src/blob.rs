//! Blob download rules: who may read a stored blob, which byte window a
//! blob section covers, and how the window's transfer encoding is undone.

use vstd::prelude::*;

verus! {

/// What a stored blob belongs to.
#[derive(Clone, Copy, PartialEq, Eq, Structural, Debug)]
pub enum BlobClass {
    /// Linked to one document of one account's collection.
    Linked { account_id: u32, collection: u8, document_id: u32 },
    /// Reserved by an account, not yet linked; lapses at `expires`.
    Reserved { account_id: u32, expires: u64 },
}

impl BlobClass {
    /// The account the blob belongs to.
    pub fn account_id(&self) -> (r: u32)
        ensures
            r == (match *self {
                BlobClass::Linked { account_id, .. } => account_id,
                BlobClass::Reserved { account_id, .. } => account_id,
            }),
    {
        match self {
            BlobClass::Linked { account_id, .. } => *account_id,
            BlobClass::Reserved { account_id, .. } => *account_id,
        }
    }
}

/// One step of the access decision: the request is settled, or one more
/// lookup is needed before it can be.
#[derive(Clone, Copy, PartialEq, Eq, Structural, Debug)]
pub enum AccessCheck {
    Allowed,
    Denied,
    /// Whether the account's shared messages include the document decides.
    NeedSharedMessages { account_id: u32, document_id: u32 },
    /// Whether the caller may read the document decides.
    NeedDocumentAccess { account_id: u32, collection: u8, document_id: u32 },
}

/// The download rule: a blob whose storage entry denies access is never
/// served; the owning account's members read it outright; another caller
/// reads a linked blob only through message sharing (for mail) or
/// document access (for anything else), and never reads a reserved blob.
pub open spec fn download_access_spec(
    class: BlobClass,
    has_store_access: bool,
    is_member: bool,
    is_email: bool,
) -> AccessCheck {
    if !has_store_access {
        AccessCheck::Denied
    } else if is_member {
        AccessCheck::Allowed
    } else {
        match class {
            BlobClass::Linked { account_id, collection, document_id } => if is_email {
                AccessCheck::NeedSharedMessages { account_id, document_id }
            } else {
                AccessCheck::NeedDocumentAccess { account_id, collection, document_id }
            },
            BlobClass::Reserved { .. } => AccessCheck::Denied,
        }
    }
}

/// One step of deciding a blob download; see `download_access_spec`.
/// `has_store_access` answers the storage layer's own check, `is_member`
/// whether the caller belongs to the blob's account, and `is_email`
/// whether the linked collection holds mail.
pub fn download_access_step(
    class: &BlobClass,
    has_store_access: bool,
    is_member: bool,
    is_email: bool,
) -> (r: AccessCheck)
    ensures
        r == download_access_spec(*class, has_store_access, is_member, is_email),
{
    if !has_store_access {
        AccessCheck::Denied
    } else if is_member {
        AccessCheck::Allowed
    } else {
        match class {
            BlobClass::Linked { account_id, collection, document_id } => {
                if is_email {
                    AccessCheck::NeedSharedMessages {
                        account_id: *account_id,
                        document_id: *document_id,
                    }
                } else {
                    AccessCheck::NeedDocumentAccess {
                        account_id: *account_id,
                        collection: *collection,
                        document_id: *document_id,
                    }
                }
            },
            BlobClass::Reserved { .. } => AccessCheck::Denied,
        }
    }
}

/// The access-probe rule: like the download rule, except that a reserved
/// blob is readable by the owning account's members, and that for a
/// non-mail document the caller must also hold access to the collection
/// before the per-document check is worth asking.
pub open spec fn probe_access_spec(
    class: BlobClass,
    has_store_access: bool,
    is_member: bool,
    is_email: bool,
    has_collection_access: bool,
) -> AccessCheck {
    if !has_store_access {
        AccessCheck::Denied
    } else {
        match class {
            BlobClass::Linked { account_id, collection, document_id } => if is_member {
                AccessCheck::Allowed
            } else if is_email {
                AccessCheck::NeedSharedMessages { account_id, document_id }
            } else if has_collection_access {
                AccessCheck::NeedDocumentAccess { account_id, collection, document_id }
            } else {
                AccessCheck::Denied
            },
            BlobClass::Reserved { .. } => if is_member {
                AccessCheck::Allowed
            } else {
                AccessCheck::Denied
            },
        }
    }
}

/// One step of answering whether a caller holds access to a blob; see
/// `probe_access_spec`.
pub fn probe_access_step(
    class: &BlobClass,
    has_store_access: bool,
    is_member: bool,
    is_email: bool,
    has_collection_access: bool,
) -> (r: AccessCheck)
    ensures
        r == probe_access_spec(*class, has_store_access, is_member, is_email,
            has_collection_access),
{
    if !has_store_access {
        AccessCheck::Denied
    } else {
        match class {
            BlobClass::Linked { account_id, collection, document_id } => {
                if is_member {
                    AccessCheck::Allowed
                } else if is_email {
                    AccessCheck::NeedSharedMessages {
                        account_id: *account_id,
                        document_id: *document_id,
                    }
                } else if has_collection_access {
                    AccessCheck::NeedDocumentAccess {
                        account_id: *account_id,
                        collection: *collection,
                        document_id: *document_id,
                    }
                } else {
                    AccessCheck::Denied
                }
            },
            BlobClass::Reserved { .. } => {
                if is_member {
                    AccessCheck::Allowed
                } else {
                    AccessCheck::Denied
                }
            },
        }
    }
}

/// A section of a stored blob: its byte window and the transfer encoding
/// its content carries.
#[derive(Clone, Copy, PartialEq, Eq, Structural, Debug)]
pub struct BlobSection {
    pub offset_start: usize,
    pub size: usize,
    pub encoding: u8,
}

/// The byte window a section covers: from its offset to offset plus
/// size, the end saturating at the machine's limit.
pub fn section_range(section: &BlobSection) -> (r: (usize, usize))
    ensures
        r.0 == section.offset_start,
        r.1 == if section.offset_start + section.size > usize::MAX {
            usize::MAX as int
        } else {
            section.offset_start + section.size
        },
{
    let end = if section.size > usize::MAX - section.offset_start {
        usize::MAX
    } else {
        section.offset_start + section.size
    };
    (section.offset_start, end)
}

/// What decoded bytes a base64 body yields, or nothing for a body that is
/// no valid base64.
pub uninterp spec fn base64_decoded(b: Seq<u8>) -> Option<Seq<u8>>;

/// What decoded bytes a quoted-printable body yields, or nothing for a
/// body that is not valid quoted-printable.
pub uninterp spec fn qp_decoded(b: Seq<u8>) -> Option<Seq<u8>>;

/// Relies on mail_parser's base64_decode: a pure function of the bytes.
#[verifier::external_body]
fn base64_decode_bytes(b: &Vec<u8>) -> (r: Option<Vec<u8>>)
    ensures
        (r is Some) == (base64_decoded(b@) is Some),
        r matches Some(v) ==> base64_decoded(b@) == Some(v@),
{
    mail_parser::decoders::base64::base64_decode(b)
}

/// Relies on mail_parser's quoted_printable_decode: a pure function of
/// the bytes.
#[verifier::external_body]
fn qp_decode_bytes(b: &Vec<u8>) -> (r: Option<Vec<u8>>)
    ensures
        (r is Some) == (qp_decoded(b@) is Some),
        r matches Some(v) ==> qp_decoded(b@) == Some(v@),
{
    mail_parser::decoders::quoted_printable::quoted_printable_decode(b)
}

/// The encoding a section's code names: 1 is quoted-printable, 2 is
/// base64, anything else leaves the bytes as they are.
#[derive(Clone, Copy, PartialEq, Eq, Structural, Debug)]
pub enum Encoding {
    Unencoded,
    QuotedPrintable,
    Base64,
}

/// Which encoding a section code names.
pub open spec fn encoding_of(code: u8) -> Encoding {
    if code == 1 {
        Encoding::QuotedPrintable
    } else if code == 2 {
        Encoding::Base64
    } else {
        Encoding::Unencoded
    }
}

/// What a section's bytes decode to: themselves when unencoded, their
/// base64 or quoted-printable decoding otherwise, or nothing when the
/// body does not parse under its announced encoding.
pub open spec fn decoded_section(b: Seq<u8>, code: u8) -> Option<Seq<u8>> {
    match encoding_of(code) {
        Encoding::Unencoded => Some(b),
        Encoding::Base64 => base64_decoded(b),
        Encoding::QuotedPrintable => qp_decoded(b),
    }
}

/// Undoes a section's transfer encoding; see `decoded_section`.
pub fn decode_section(bytes: Vec<u8>, encoding_code: u8) -> (r: Option<Vec<u8>>)
    ensures
        (r is Some) == (decoded_section(bytes@, encoding_code) is Some),
        r matches Some(v) ==> decoded_section(bytes@, encoding_code) == Some(v@),
{
    if encoding_code == 1 {
        qp_decode_bytes(&bytes)
    } else if encoding_code == 2 {
        base64_decode_bytes(&bytes)
    } else {
        Some(bytes)
    }
}

} // verus!

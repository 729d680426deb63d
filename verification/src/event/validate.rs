//! Event validation — verify signatures, check hashes, enforce limits.

use vstd::prelude::*;
use vstd::string::*;
use crate::crypto::ed25519_verifies;
use crate::encoding::{hex_encode, hex_of};
use crate::event::serialize::{compute_event_id, event_id_of};
use crate::event::types::{ids_equal, first_ref, Event, EventKind, EventModel, RefTag, MAX_POST_LENGTH};
use crate::identity::keypair;

verus! {

#[derive(Debug)]
pub enum ValidationError {
    /// Event ID mismatch: the id computed from the content (hex) differs from the claimed one (hex).
    IdMismatch { computed: String, claimed: String },
    /// Invalid signature
    InvalidSignature,
    /// Content too long (length in characters, and the maximum).
    ContentTooLong { length: usize, max: usize },
    /// Timestamp is in the future
    FutureTimestamp,
    /// Reply event missing parent_id tag
    MissingParentId,
    /// Correction event missing corrects_id tag
    MissingCorrectsId,
}

/// The first check an event fails, by name.
pub enum Failure {
    IdMismatch,
    InvalidSignature,
    ContentTooLong,
    FutureTimestamp,
    MissingParentId,
    MissingCorrectsId,
}

/// Kinds whose content is limited in length.
pub open spec fn is_post_like(k: EventKind) -> bool {
    k == EventKind::Post || k == EventKind::Reply || k == EventKind::Correction
}

/// The content and structure checks, which follow the id and signature checks.
pub open spec fn content_failure(e: EventModel) -> Option<Failure> {
    if is_post_like(e.kind) && e.content.len() > MAX_POST_LENGTH {
        Some(Failure::ContentTooLong)
    } else if e.kind == EventKind::Reply && first_ref(e.tags, RefTag::Parent) is None {
        Some(Failure::MissingParentId)
    } else if e.kind == EventKind::Correction && first_ref(e.tags, RefTag::Corrects) is None {
        Some(Failure::MissingCorrectsId)
    } else {
        None
    }
}

/// The first failing check, in order: the id must match the hash of the
/// content, then the signature must verify, then the content checks.
pub open spec fn failure_of(e: EventModel, id_matches: bool, signature_valid: bool) -> Option<Failure> {
    if !id_matches {
        Some(Failure::IdMismatch)
    } else if !signature_valid {
        Some(Failure::InvalidSignature)
    } else {
        content_failure(e)
    }
}

/// Whether the claimed id is the hash of the event's canonical content.
pub open spec fn id_is_authentic(e: EventModel) -> bool {
    e.id == event_id_of(e.pubkey, e.created_at, e.kind, e.content, e.tags)
}

/// The first check the event fails, if any.
pub open spec fn validation_failure(e: EventModel) -> Option<Failure> {
    failure_of(e, id_is_authentic(e), ed25519_verifies(e.pubkey, e.id, e.sig))
}

/// The name of an error.
pub open spec fn failure_kind(err: ValidationError) -> Failure {
    match err {
        ValidationError::IdMismatch { .. } => Failure::IdMismatch,
        ValidationError::InvalidSignature => Failure::InvalidSignature,
        ValidationError::ContentTooLong { .. } => Failure::ContentTooLong,
        ValidationError::FutureTimestamp => Failure::FutureTimestamp,
        ValidationError::MissingParentId => Failure::MissingParentId,
        ValidationError::MissingCorrectsId => Failure::MissingCorrectsId,
    }
}

/// What an error carries beyond its name.
pub open spec fn error_details_hold(err: ValidationError, e: EventModel, computed_id: Seq<u8>) -> bool {
    match err {
        ValidationError::IdMismatch { computed, claimed } => computed@ == hex_of(computed_id) && claimed@ == hex_of(e.id),
        ValidationError::ContentTooLong { length, max } => length == e.content.len() && max == MAX_POST_LENGTH,
        _ => true,
    }
}

/// Decide an event's validity given the id recomputed from its content and
/// whether its signature verifies.
pub fn validate_event_with(event: &Event, computed_id: &[u8; 32], signature_valid: bool) -> (r: Result<(), ValidationError>)
    ensures
        match r {
            Ok(()) => failure_of(event@, computed_id@ == event@.id, signature_valid) is None,
            Err(err) => failure_of(event@, computed_id@ == event@.id, signature_valid) == Some(failure_kind(err))
                && error_details_hold(err, event@, computed_id@),
        },
        (computed_id@ == event@.id && signature_valid
            && (event@.kind == EventKind::Post || event@.kind == EventKind::Reply || event@.kind == EventKind::Correction)
            && event@.content.len() > MAX_POST_LENGTH)
            ==> (r matches Err(ValidationError::ContentTooLong { length, max })
                && length == event@.content.len() && max == MAX_POST_LENGTH),
{
    // 1. The id must be the hash of the canonical content
    if !ids_equal(computed_id, &event.id) {
        return Err(ValidationError::IdMismatch { computed: hex_encode(computed_id), claimed: hex_encode(&event.id) });
    }
    // 2. The signature over the event ID must verify
    if !signature_valid {
        return Err(ValidationError::InvalidSignature);
    }
    // 3. Content length check for post-like events
    match event.kind {
        EventKind::Post | EventKind::Reply | EventKind::Correction => {
            let length = event.content.as_str().unicode_len();
            if length > MAX_POST_LENGTH {
                return Err(ValidationError::ContentTooLong { length, max: MAX_POST_LENGTH });
            }
        },
        _ => {},
    }
    // 4. Structural checks for specific event kinds
    if event.kind == EventKind::Reply && event.parent_id().is_none() {
        return Err(ValidationError::MissingParentId);
    }
    if event.kind == EventKind::Correction && event.corrects_id().is_none() {
        return Err(ValidationError::MissingCorrectsId);
    }
    Ok(())
}

/// Validate an event: check the hash, verify the signature,
/// and enforce content constraints.
pub fn validate_event(event: &Event) -> (r: Result<(), ValidationError>)
    ensures
        match r {
            Ok(()) => validation_failure(event@) is None,
            Err(err) => validation_failure(event@) == Some(failure_kind(err))
                && error_details_hold(err, event@, event_id_of(event@.pubkey, event@.created_at, event@.kind, event@.content, event@.tags)),
        },
        (id_is_authentic(event@) && ed25519_verifies(event@.pubkey, event@.id, event@.sig)
            && (event@.kind == EventKind::Post || event@.kind == EventKind::Reply || event@.kind == EventKind::Correction)
            && event@.content.len() > MAX_POST_LENGTH)
            ==> (r matches Err(ValidationError::ContentTooLong { length, max })
                && length == event@.content.len() && max == MAX_POST_LENGTH),
{
    // 1. Recompute the event ID from the canonical content
    let computed_id = compute_event_id(
        &event.pubkey,
        event.created_at,
        event.kind,
        event.content.as_str(),
        event.tags.as_slice(),
    );
    // 2. The signature is checked only when the id is authentic
    let signature_valid = if ids_equal(&computed_id, &event.id) {
        keypair::verify(&event.pubkey, &event.id, &event.sig)
    } else {
        false
    };
    validate_event_with(event, &computed_id, signature_valid)
}

/// An event whose id is the hash of its content and whose signature
/// verifies fails validation exactly when it breaks the content rules: it
/// is too long for its kind, or a reply or correction lacks its reference.
pub proof fn lemma_authentic_event_validation(e: EventModel)
    requires
        id_is_authentic(e),
        ed25519_verifies(e.pubkey, e.id, e.sig),
    ensures
        validation_failure(e) == content_failure(e),
{
}

/// An authentic, validly signed post, reply or correction whose content is
/// longer than the limit is refused for its length, whatever its tags: the
/// length check comes before the structural ones.
pub proof fn lemma_overlong_post_reply_correction_rejected(e: EventModel)
    requires
        id_is_authentic(e),
        ed25519_verifies(e.pubkey, e.id, e.sig),
        e.kind == EventKind::Post || e.kind == EventKind::Reply || e.kind == EventKind::Correction,
        e.content.len() > MAX_POST_LENGTH,
    ensures
        validation_failure(e) == Some(Failure::ContentTooLong),
        failure_of(e, true, true) == Some(Failure::ContentTooLong),
{
}

} // verus!

//! The limits and the words that every device has to share, in one place.
use vstd::prelude::*;

verus! {

/// How much and how long: leases last from a minute to a week, and a day where nothing is said; tokens,
/// certificates and links last thirty days; a delivery is tried twenty times in a week; clocks may be
/// off by a minute.
pub proof fn limits_are_shared()
    ensures
        crate::capsule::LEASE_TTL_MIN_MS == 60_000,
        crate::capsule::LEASE_TTL_DEFAULT_MS == 86_400_000,
        crate::capsule::LEASE_TTL_MAX_MS == 604_800_000,
        crate::capsule::MAX_LABELS == 128,
        crate::capsule::MAX_FORK_LABELS == 32,
        crate::canonical::MAX == 9_007_199_254_740_991,
        crate::walk::MAX_TREE_DEPTH == 512,
        crate::walk::MAX_TREE_PATH == 4096,
        crate::link::MAX_CAPABILITY_BYTES == 67_108_864,
        crate::link::MAX_CAPABILITY_OBJECT_BYTES == 33_554_432,
        crate::link::LINK_HEADER_LEN == 37,
        crate::link::ALG_AES_256_GCM == 2,
        crate::cli::share::MAX_LINK_TTL_MS == 2_592_000_000,
        crate::cli::settings::MIN_POLL_SECONDS == 5,
        crate::adapter::protocol::MAX_LINE == 1_048_576,
        crate::adapter::protocol::MAX_INVENTORY_ITEMS == 256,
        crate::net::auth::CLOCK_SKEW_MS == 60_000,
        crate::net::auth::MAX_REVOCATIONS_PER_MESSAGE == 128,
        crate::net::auth::MAX_CERTIFICATE_LIFETIME_MS == 2_592_000_000,
        crate::net::auth::MAX_TICKET_BYTES == 8192,
        crate::net::control::MAX_CONTROL_TEXT == 8192,
        crate::net::framing::MAX_CONTROL_FRAME == 16_777_216,
        crate::net::framing::HEADER_LEN == 49,
        crate::net::handshake::MAX_ADVERTISED_ADDRESS == 128,
        crate::net::hello::WIRE_VERSION == 1,
        crate::net::offer::MAX_LEASE_CHAIN_LEN == 256,
        crate::net::outbox::OUTBOX_TTL_MS == 604_800_000,
        crate::net::outbox::MAX_ATTEMPTS == 20,
        crate::net::plan::MAX_OBJECT_SIZE == 268_435_456,
        crate::net::plan::MAX_NATIVE_OBJECT_SIZE == 8_589_934_592,
        crate::net::plan::DEFAULT_OFFER_BUDGET == 17_179_869_184,
        crate::net::plan::OBJECT_STREAM_CHUNK == 1_048_576,
        crate::net::plan::STREAMING_THRESHOLD == 8_388_608,
        crate::net::reason::MAX_REJECTION_REASON_CHARS == 256,
        crate::net::receive::MAX_INBOX_ENTRIES == 10_000,
        crate::net::relay::DAY_MS == 86_400_000,
        crate::net::session::MAX_PENDING_PAIRS == 128,
        crate::net::session::GUEST_SESSION_MS == 86_400_000,
        crate::net::settle::MAX_PERSISTED_REVOCATIONS == 4096,
        crate::net::settle::MAX_PERSISTED_BIND_CERTIFICATES == 4096,
        crate::manifest::ABRA_SPEC == 1,
{
}

/// The words that are written into records and messages.
pub proof fn words_are_shared()
    ensures
        crate::capsule::SPEC@ == "0.1"@,
        crate::cas::ABRA_DIR@ == ".abra"@,
        crate::link::MAGIC@ == "ABRACAP1"@,
        crate::link::REVOKED_MAGIC@ == "ABRACAPX"@,
        crate::manifest::KIND_WORKSPACE@ == "abra.workspace"@,
        crate::manifest::KIND_FILES@ == "abra.files"@,
        crate::manifest::KIND_HANDOFF@ == "abra.handoff.v1"@,
        crate::net::auth::FEATURE_REVOCATION@ == "revocation"@,
        crate::net::auth::FEATURE_SKIP_NATIVE@ == "skip-native"@,
        crate::net::auth::FEATURE_BIND_CERT@ == "bind-cert"@,
        crate::net::auth::FEATURE_CONTROL_RESULT@ == "control-result"@,
{
}

} // verus!

//! Where the format is announced to the framework's container registry.
use vstd::prelude::*;

use oxideav_core::ContainerRegistry;

verus! {

/// The framework's registry of container formats.
#[verifier::external_type_specification]
#[verifier::external_body]
pub struct ExContainerRegistry(ContainerRegistry);

/// The claims that a registry holds on each lower-case file extension, in the
/// order of registration: container name and resolution priority.
pub uninterp spec fn extension_claims(reg: ContainerRegistry) -> Map<
    Seq<char>,
    Seq<(Seq<char>, i32)>,
>;

/// The claims on one extension: none where it has never been claimed.
pub open spec fn claims_on(reg: ContainerRegistry, ext: Seq<char>) -> Seq<(Seq<char>, i32)> {
    if extension_claims(reg).dom().contains(ext) {
        extension_claims(reg)[ext]
    } else {
        Seq::empty()
    }
}

/// Whether a text consists of the letters `a` to `z`, which lower-casing leaves as they are.
pub open spec fn is_lower_case(text: Seq<char>) -> bool {
    forall|i: int| 0 <= i < text.len() ==> 'a' <= #[trigger] text[i] <= 'z'
}

/// `ContainerRegistry::register_extension` adds one claim at the default
/// priority behind the claims on the lower-cased extension, and touches no
/// other extension's claims. Stated for extensions that are lower case
/// already; what lower-casing does to other texts is left unsaid.
pub assume_specification[ ContainerRegistry::register_extension ](
    reg: &mut ContainerRegistry,
    ext: &str,
    container_name: &str,
)
    requires
        is_lower_case(ext@),
    ensures
        extension_claims(*final(reg)) == extension_claims(*old(reg)).insert(
            ext@,
            claims_on(*old(reg), ext@).push((container_name@, 100i32)),
        ),
;

/// Claim the file extension `qoi` for the container name `qoi`.
///
/// The format has no container layer of its own (the file is the codec's
/// packet), so there is no demuxer, muxer or probe to register with it.
pub fn register_containers(reg: &mut ContainerRegistry)
    ensures
        extension_claims(*final(reg)) == extension_claims(*old(reg)).insert(
            "qoi"@,
            claims_on(*old(reg), "qoi"@).push(("qoi"@, 100i32)),
        ),
{
    proof {
        reveal_strlit("qoi");
    }
    reg.register_extension("qoi", "qoi");
}

} // verus!

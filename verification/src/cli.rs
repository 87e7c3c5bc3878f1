use vstd::prelude::*;

verus! {

/// A filesystem path.
#[verifier::external_type_specification]
#[verifier::external_body]
pub struct ExPathBuf(std::path::PathBuf);

/// The arguments of a RON-to-Nix conversion: where the RON comes from
/// (`-` for standard input), where the Nix goes (standard output where
/// absent), and the attribute path of the NixOS module to wrap the result
/// in, if any.
#[derive(Debug)]
pub struct RonixArgs {
    pub input: std::path::PathBuf,
    pub output: Option<std::path::PathBuf>,
    pub attr_path: Option<String>,
}

} // verus!

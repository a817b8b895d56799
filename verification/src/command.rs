//! Command lines that the tool hands to a shell on a node.

use crate::hash::{hash_string, hex_text, text_hash};
use base64::engine::general_purpose;
use base64::Engine;
use vstd::prelude::*;
use vstd::string::StringExecFns;
use vstd::string::StringSliceAdditionalSpecFns;

verus! {

/// What `base64::Engine::encode` returns for bytes with the engine
/// `general_purpose::STANDARD`: their base64 text in the standard alphabet,
/// padded.
pub uninterp spec fn base64_standard(bytes: Seq<u8>) -> Seq<char>;

/// Calls `base64::Engine::encode` on `general_purpose::STANDARD` with the
/// bytes of a string. The contract names the result, and leaves out the
/// lengths for which the encoded size would not fit.
#[verifier::external_body]
fn encode_standard(contents: &str) -> (r: String)
    requires
        contents.spec_bytes().len() <= usize::MAX / 2,
    ensures
        r@ == base64_standard(contents.spec_bytes()),
{
    general_purpose::STANDARD.encode(contents)
}

pub open spec fn transfer_text(encoded: Seq<char>, remote_path: Seq<char>) -> Seq<char> {
    "sudo bash -c -eu 'echo "@ + encoded + "| base64 --decode > "@ + remote_path + "'"@
}

/// The command that writes base64 text, decoded, to a path.
pub fn transfer_encoded_cmd(encoded: &str, remote_path: &str) -> (r: String)
    ensures
        r@ == transfer_text(encoded@, remote_path@),
{
    let mut r = String::from_str("sudo bash -c -eu 'echo ");
    r.append(encoded);
    r.append("| base64 --decode > ");
    r.append(remote_path);
    r.append("'");
    r
}

/// The command that writes the given contents to a path on a node.
pub fn transfer_file_cmd(contents: &str, remote_path: &str) -> (r: String)
    requires
        contents.spec_bytes().len() <= usize::MAX / 2,
    ensures
        r@ == transfer_text(base64_standard(contents.spec_bytes()), remote_path@),
{
    let encoded = encode_standard(contents);
    transfer_encoded_cmd(encoded.as_str(), remote_path)
}

/// The file in which a manifest is kept: its name holds the manifest's hash.
pub fn manifest_path(manifest: &str) -> (r: String)
    ensures
        r@ == "/tmp/skate-"@ + hex_text(text_hash(manifest@) as nat, 1) + ".yaml"@,
{
    let mut r = String::from_str("/tmp/skate-");
    r.append(hash_string(manifest).as_str());
    r.append(".yaml");
    r
}

pub open spec fn play_args_text(file_path: Seq<char>, host_network: bool) -> Seq<Seq<char>> {
    let base = seq!["play"@, "kube"@, file_path, "--start"@];
    if host_network {
        base
    } else {
        base.push("--network=skate"@)
    }
}

pub open spec fn texts(v: Seq<String>) -> Seq<Seq<char>> {
    Seq::new(v.len(), |i: int| v[i]@)
}

/// The arguments with which a manifest is played: on the tool's own network
/// unless the resource uses the host's.
pub fn play_args(file_path: &str, host_network: bool) -> (r: Vec<String>)
    ensures
        texts(r@) == play_args_text(file_path@, host_network),
{
    let mut args: Vec<String> = Vec::new();
    args.push(String::from_str("play"));
    args.push(String::from_str("kube"));
    args.push(String::from_str(file_path));
    args.push(String::from_str("--start"));
    if !host_network {
        args.push(String::from_str("--network=skate"));
    }
    assert(texts(args@) =~= play_args_text(file_path@, host_network));
    args
}

} // verus!

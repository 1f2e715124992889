//! Patch application: choosing the patch format and applying a patch to a
//! clean base image through the patching library, and picking the patch and
//! readme entries out of an archive's name list. Reading archives and files
//! is the caller's business; everything here works on bytes.

use vstd::prelude::*;
use crate::bytestr::{
    ascii_bytes, ascii_lower, spec_ascii_lower, spec_ends_with, spec_starts_with, str_bytes,
};
use crate::store::spec_find_first;

verus! {

/// What a failed patch application reports.
#[derive(Clone, Copy, Debug, PartialEq, Eq, Structural)]
pub enum PatchError {
    IpsFailed,
    BpsFailed,
}

/// The patched image that applying an IPS patch to a source image yields,
/// or nothing when the patch does not apply. The result is a fixed
/// function of the two byte strings, computed by `flips::IpsPatch`.
pub uninterp spec fn ips_apply_of(patch: Seq<u8>, source: Seq<u8>) -> Option<Seq<u8>>;

/// The patched image that applying a BPS patch to a source image yields,
/// or nothing when the patch does not apply (a BPS patch checksums its
/// source, so a wrong base image is rejected). The result is a fixed
/// function of the two byte strings, computed by `flips::BpsPatch`.
pub uninterp spec fn bps_apply_of(patch: Seq<u8>, source: Seq<u8>) -> Option<Seq<u8>>;

/// Relies on `flips::IpsPatch::new` and `IpsPatch::apply`: the output is a
/// function of the patch and source bytes alone.
#[verifier::external_body]
fn ips_apply(patch: &Vec<u8>, source: &Vec<u8>) -> (r: Option<Vec<u8>>)
    ensures
        match r {
            Some(v) => ips_apply_of(patch@, source@) == Some(v@),
            None => ips_apply_of(patch@, source@) is None,
        },
{
    let p = flips::IpsPatch::new(patch.as_slice());
    match p.apply(source.as_slice()) {
        Ok(out) => Some(out.to_bytes()),
        Err(_) => None,
    }
}

/// Relies on `flips::BpsPatch::new` and `BpsPatch::apply`: the output is a
/// function of the patch and source bytes alone.
#[verifier::external_body]
fn bps_apply(patch: &Vec<u8>, source: &Vec<u8>) -> (r: Option<Vec<u8>>)
    ensures
        match r {
            Some(v) => bps_apply_of(patch@, source@) == Some(v@),
            None => bps_apply_of(patch@, source@) is None,
        },
{
    let p = flips::BpsPatch::new(patch.as_slice());
    match p.apply(source.as_slice()) {
        Ok(out) => Some(out.to_bytes()),
        Err(_) => None,
    }
}

/// A patch is taken for IPS when its file extension says so or its bytes
/// open with the IPS magic; everything else is treated as BPS, the default
/// format.
pub open spec fn spec_is_ips(extension: Seq<u8>, patch: Seq<u8>) -> bool {
    extension == str_bytes("ips") || spec_starts_with(patch, str_bytes("PATCH"))
}

/// An archive entry name that holds a patch.
pub open spec fn patch_entry_pred() -> spec_fn(Vec<u8>) -> bool {
    |n: Vec<u8>|
        spec_ends_with(n@, str_bytes(".bps")) || spec_ends_with(n@, str_bytes(".ips"))
}

/// An archive entry name that, lowercased, is a text file.
pub open spec fn txt_entry_pred() -> spec_fn(Vec<u8>) -> bool {
    |n: Vec<u8>| spec_ends_with(spec_ascii_lower(n@), str_bytes(".txt"))
}

/// An archive entry name that, lowercased, is a text file naming itself a
/// readme.
pub open spec fn readme_entry_pred() -> spec_fn(Vec<u8>) -> bool {
    |n: Vec<u8>|
        spec_ends_with(spec_ascii_lower(n@), str_bytes(".txt")) && crate::bytestr::spec_contains(
            spec_ascii_lower(n@),
            str_bytes("readme"),
        )
}

pub struct Patcher;

impl Patcher {
    /// Apply a patch to the clean base image: an IPS patch (by extension or
    /// magic bytes) through the IPS path, anything else through the BPS
    /// path. Returns the patched image, or which path failed.
    pub fn patch_bps(clean_rom: &Vec<u8>, patch: &Vec<u8>, extension: &Vec<u8>) -> (r: Result<
        Vec<u8>,
        PatchError,
    >)
        ensures
            spec_is_ips(extension@, patch@) ==> match ips_apply_of(patch@, clean_rom@) {
                Some(v) => r matches Ok(out) && out@ == v,
                None => r == Err::<Vec<u8>, PatchError>(PatchError::IpsFailed),
            },
            !spec_is_ips(extension@, patch@) ==> match bps_apply_of(patch@, clean_rom@) {
                Some(v) => r matches Ok(out) && out@ == v,
                None => r == Err::<Vec<u8>, PatchError>(PatchError::BpsFailed),
            },
    {
        proof {
            reveal_strlit("ips");
            reveal_strlit("PATCH");
        }
        let ips_ext = ascii_bytes("ips");
        let magic = ascii_bytes("PATCH");
        let ext_is_ips = extension == &ips_ext;
        proof {
            if ext_is_ips {
                assert(extension@ =~= str_bytes("ips"));
            }
            if extension@ == str_bytes("ips") {
                assert(extension@ =~= ips_ext@);
                assert(ext_is_ips);
            }
        }
        let is_ips = ext_is_ips || crate::bytestr::starts_with_bytes(patch, &magic);
        if is_ips {
            match ips_apply(patch, clean_rom) {
                Some(out) => Ok(out),
                None => Err(PatchError::IpsFailed),
            }
        } else {
            match bps_apply(patch, clean_rom) {
                Some(out) => Ok(out),
                None => Err(PatchError::BpsFailed),
            }
        }
    }

    /// The index of the first archive entry whose name is a patch file.
    pub fn pick_patch_entry(names: &Vec<Vec<u8>>) -> (r: Option<usize>)
        ensures
            match spec_find_first(names@, patch_entry_pred()) {
                Some(ix) => r == Some(ix as usize),
                None => r is None,
            },
    {
        proof {
            reveal_strlit(".bps");
            reveal_strlit(".ips");
        }
        let bps = ascii_bytes(".bps");
        let ips = ascii_bytes(".ips");
        let mut i: usize = 0;
        while i < names.len()
            invariant
                i <= names@.len(),
                bps@ == str_bytes(".bps"),
                ips@ == str_bytes(".ips"),
                forall|k: int| 0 <= k < i ==> !#[trigger] patch_entry_pred()(names@[k]),
            decreases names@.len() - i,
        {
            if crate::bytestr::ends_with_bytes(&names[i], &bps) || crate::bytestr::ends_with_bytes(
                &names[i],
                &ips,
            ) {
                proof {
                    assert(patch_entry_pred()(names@[i as int]));
                    crate::store::lemma_find_first_is(names@, patch_entry_pred(), i as int);
                }
                return Some(i);
            }
            i += 1;
        }
        proof {
            crate::store::lemma_find_first_none(names@, patch_entry_pred());
        }
        None
    }

    /// The index of the archive entry to take the readme from: the first
    /// text file naming itself a readme, or failing that the first text
    /// file at all.
    pub fn pick_readme_entry(names: &Vec<Vec<u8>>) -> (r: Option<usize>)
        ensures
            match spec_find_first(names@, readme_entry_pred()) {
                Some(ix) => r == Some(ix as usize),
                None => match spec_find_first(names@, txt_entry_pred()) {
                    Some(ix) => r == Some(ix as usize),
                    None => r is None,
                },
            },
    {
        proof {
            reveal_strlit(".txt");
            reveal_strlit("readme");
        }
        let txt = ascii_bytes(".txt");
        let readme = ascii_bytes("readme");
        let mut i: usize = 0;
        while i < names.len()
            invariant
                i <= names@.len(),
                txt@ == str_bytes(".txt"),
                readme@ == str_bytes("readme"),
                forall|k: int| 0 <= k < i ==> !#[trigger] readme_entry_pred()(names@[k]),
            decreases names@.len() - i,
        {
            let lower = ascii_lower(&names[i]);
            if crate::bytestr::ends_with_bytes(&lower, &txt) && crate::bytestr::contains_bytes(
                &lower,
                &readme,
            ) {
                proof {
                    assert(readme_entry_pred()(names@[i as int]));
                    crate::store::lemma_find_first_is(names@, readme_entry_pred(), i as int);
                }
                return Some(i);
            }
            proof {
                assert(!readme_entry_pred()(names@[i as int]));
            }
            i += 1;
        }
        proof {
            crate::store::lemma_find_first_none(names@, readme_entry_pred());
        }
        let mut j: usize = 0;
        while j < names.len()
            invariant
                j <= names@.len(),
                txt@ == str_bytes(".txt"),
                spec_find_first(names@, readme_entry_pred()) is None,
                forall|k: int| 0 <= k < j ==> !#[trigger] txt_entry_pred()(names@[k]),
            decreases names@.len() - j,
        {
            let lower = ascii_lower(&names[j]);
            if crate::bytestr::ends_with_bytes(&lower, &txt) {
                proof {
                    assert(txt_entry_pred()(names@[j as int]));
                    crate::store::lemma_find_first_is(names@, txt_entry_pred(), j as int);
                }
                return Some(j);
            }
            proof {
                assert(!txt_entry_pred()(names@[j as int]));
            }
            j += 1;
        }
        proof {
            crate::store::lemma_find_first_none(names@, txt_entry_pred());
        }
        None
    }
}

} // verus!

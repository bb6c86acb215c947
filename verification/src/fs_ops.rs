//! Crash-safe file operations with bounded retry: write, copy and move
//! go through a nonce-named sibling temp file that is renamed over the
//! destination, so a reader of the destination only ever sees old or
//! new contents, and no temp file is left behind.
//!
//! Destinations may be transiently locked by other processes; a
//! [`FaultPlan`] says how many more such faults the model will serve,
//! and the retry loop is verified against every plan.

use vstd::prelude::*;
use vstd::string::*;
use crate::dec::{dec_spec, u64_to_dec};

use crate::errors::LibError;
use crate::fs::{copy_bytes, Fs};
use crate::paths::{is_valid_file_dest, valid_file_dest};
use crate::strutil::concat3;

verus! {

/// How many upcoming file operations hit a transient lock and fail.
pub struct FaultPlan {
    pub fail_next: usize,
}

impl FaultPlan {
    /// A plan under which every operation succeeds at once.
    pub fn none() -> (r: FaultPlan)
        ensures
            r.fail_next == 0,
    {
        FaultPlan { fail_next: 0 }
    }

    /// A plan under which the next `n` operations fail.
    pub fn failing(n: usize) -> (r: FaultPlan)
        ensures
            r.fail_next == n,
    {
        FaultPlan { fail_next: n }
    }
}

/// The sibling temp path used while replacing `dest`.
pub open spec fn temp_path_spec(dest: Seq<char>, nonce: u64) -> Seq<char> {
    dest + ".tmp-"@ + dec_spec(nonce as nat)
}

/// The nonce-named temp path next to `dest`.
pub fn temp_path_for(dest: &str, nonce: u64) -> (r: String)
    ensures
        r@ == temp_path_spec(dest@, nonce),
        r@.len() > dest@.len(),
{
    let digits = u64_to_dec(nonce);
    let r = concat3(dest, ".tmp-", digits.as_str());
    proof {
        reveal_strlit(".tmp-");
        crate::dec::lemma_dec_spec_digits(nonce as nat);
    }
    r
}

fn take_file(fs: &Fs, path: &str) -> (r: Vec<u8>)
    requires
        fs.inv(),
        fs.has_file(path@),
    ensures
        r@ == fs.file_data(path@),
{
    match fs.read_file(path) {
        Some(d) => d,
        None => {
            proof {
                assert(false);
            }
            Vec::new()
        },
    }
}

/// Writes `bytes` to `dest` through a temp file, retrying up to
/// `attempts` times on transient faults. On success the destination
/// holds exactly the written bytes and the temp file is gone; on
/// failure nothing has changed.
pub fn write_bytes_with_retry(
    fs: &mut Fs,
    faults: &mut FaultPlan,
    nonce: u64,
    dest: &str,
    bytes: &Vec<u8>,
    attempts: usize,
) -> (r: Result<(), LibError>)
    requires
        old(fs).inv(),
    ensures
        final(fs).inv(),
        attempts == 0 ==> r is Ok && *final(fs) == *old(fs) && *final(faults) == *old(faults),
        // a destination without a parent directory or file name is
        // refused before anything is touched
        attempts > 0 && !valid_file_dest(dest@) ==> r == Result::<(), LibError>::Err(
            LibError::BadDestPath,
        ) && *final(fs) == *old(fs) && *final(faults) == *old(faults),
        attempts > 0 && valid_file_dest(dest@) ==> (r is Ok <==> old(faults).fail_next < attempts),
        r == Result::<(), LibError>::Err(LibError::FileBusy) ==> *final(fs) == *old(fs) && final(faults).fail_next == old(faults).fail_next - attempts,
        r is Err ==> r == Result::<(), LibError>::Err(LibError::FileBusy) || r == Result::<
            (),
            LibError,
        >::Err(LibError::BadDestPath),
        r == Result::<(), LibError>::Err(LibError::BadDestPath) ==> !valid_file_dest(dest@)
            && *final(fs) == *old(fs) && *final(faults) == *old(faults),
        attempts > 0 && r is Ok ==> {
            &&& final(fs).has_file(dest@)
            &&& final(fs).file_data(dest@) == bytes@
            &&& !final(fs).has_file(temp_path_spec(dest@, nonce))
            &&& forall|q: Seq<char>|
                q != dest@ && q != temp_path_spec(dest@, nonce) ==> final(fs).has_file(q) == old(fs).has_file(q)
            &&& forall|q: Seq<char>|
                q != dest@ && q != temp_path_spec(dest@, nonce) && old(fs).has_file(q) ==> final(fs).file_data(q) == old(fs).file_data(q) && final(fs).file_stamp(q) == old(fs).file_stamp(q)
            &&& forall|q: Seq<char>| final(fs).has_dir(q) == old(fs).has_dir(q)
        },
{
    if attempts > 0 && !is_valid_file_dest(dest) {
        return Err(LibError::BadDestPath);
    }
    let tmp = temp_path_for(dest, nonce);
    let mut i: usize = 0;
    while i < attempts
        invariant
            fs.inv(),
            i <= attempts,
            i <= old(faults).fail_next,
            faults.fail_next == old(faults).fail_next - i,
            *fs == *old(fs),
            tmp@ == temp_path_spec(dest@, nonce),
            tmp@.len() > dest@.len(),
            attempts > 0 ==> valid_file_dest(dest@),
        decreases attempts - i,
    {
        if faults.fail_next > 0 {
            faults.fail_next = faults.fail_next - 1;
            i += 1;
        } else {
            proof {
                assert(tmp@ != dest@);
            }
            let data = copy_bytes(bytes);
            let ghost s0 = *fs;
            fs.write_file(tmp.as_str(), data);
            let ghost s1 = *fs;
            fs.remove_file(dest);
            let ghost s2 = *fs;
            proof {
                assert(s2.same_at(s1, tmp@));
                assert(s2.has_file(tmp@));
                assert(s2.file_data(tmp@) == bytes@);
            }
            let moved = take_file(fs, tmp.as_str());
            fs.remove_file(tmp.as_str());
            let ghost s3 = *fs;
            fs.write_file(dest, moved);
            proof {
                assert(moved@ == bytes@);
                assert(fs.file_data(dest@) == bytes@);
                assert(fs.same_at(s3, tmp@));
                assert(!s3.has_file(tmp@));
                assert(!fs.has_file(tmp@));
                assert forall|q: Seq<char>|
                    q != dest@ && q != tmp@ implies fs.same_at(*old(fs), q) by {
                    assert(fs.same_at(s3, q));
                    assert(s3.same_at(s2, q));
                    assert(s2.same_at(s1, q));
                    assert(s1.same_at(s0, q));
                }
            }
            return Ok(());
        }
    }
    if attempts == 0 {
        return Ok(());
    }
    Err(LibError::FileBusy)
}

/// Copies the file at `src` over `dest` through a temp file, retrying
/// up to `attempts` times on transient faults. A missing source fails
/// at once, changing nothing.
pub fn copy_file_with_retry(
    fs: &mut Fs,
    faults: &mut FaultPlan,
    nonce: u64,
    src: &str,
    dest: &str,
    attempts: usize,
) -> (r: Result<(), LibError>)
    requires
        old(fs).inv(),
    ensures
        final(fs).inv(),
        attempts == 0 ==> r is Ok && *final(fs) == *old(fs) && *final(faults) == *old(faults),
        attempts > 0 && !valid_file_dest(dest@) ==> r == Result::<(), LibError>::Err(
            LibError::BadDestPath,
        ) && *final(fs) == *old(fs) && *final(faults) == *old(faults),
        attempts > 0 && valid_file_dest(dest@) && !old(fs).has_file(src@) ==> (r matches Err(e)
            && e is MissingFile) && *final(fs) == *old(fs) && *final(faults) == *old(faults),
        attempts > 0 && valid_file_dest(dest@) && old(fs).has_file(src@) ==> (r is Ok <==> old(faults).fail_next < attempts),
        (r matches Err(e) && e is FileBusy) ==> *final(fs) == *old(fs) && final(faults).fail_next
            == old(faults).fail_next - attempts,
        r matches Err(e) ==> e is FileBusy || e is BadDestPath || e is MissingFile,
        attempts > 0 && r is Ok ==> {
            &&& final(fs).has_file(dest@)
            &&& final(fs).file_data(dest@) == old(fs).file_data(src@)
            &&& !final(fs).has_file(temp_path_spec(dest@, nonce))
            &&& src@ != dest@ && src@ != temp_path_spec(dest@, nonce) ==> final(fs).has_file(src@)
                && final(fs).file_data(src@) == old(fs).file_data(src@)
            &&& forall|q: Seq<char>|
                q != dest@ && q != temp_path_spec(dest@, nonce) ==> final(fs).has_file(q) == old(fs).has_file(q)
            &&& forall|q: Seq<char>|
                q != dest@ && q != temp_path_spec(dest@, nonce) && old(fs).has_file(q) ==> final(fs).file_data(q) == old(fs).file_data(q) && final(fs).file_stamp(q) == old(fs).file_stamp(q)
            &&& forall|q: Seq<char>| final(fs).has_dir(q) == old(fs).has_dir(q)
        },
{
    if attempts == 0 {
        return Ok(());
    }
    if !is_valid_file_dest(dest) {
        return Err(LibError::BadDestPath);
    }
    if !fs.file_exists(src) {
        return Err(LibError::MissingFile(src.to_owned()));
    }
    let data = take_file(fs, src);
    write_bytes_with_retry(fs, faults, nonce, dest, &data, attempts)
}

/// Moves the file at `src` to `dest`, deleting any previous
/// destination first, retrying up to `attempts` times on transient
/// faults. A missing source fails at once, changing nothing.
pub fn move_file_with_retry(
    fs: &mut Fs,
    faults: &mut FaultPlan,
    src: &str,
    dest: &str,
    attempts: usize,
) -> (r: Result<(), LibError>)
    requires
        old(fs).inv(),
        src@ != dest@,
    ensures
        final(fs).inv(),
        attempts > 0 && !old(fs).has_file(src@) ==> (r matches Err(e) && e is MissingFile)
            && *final(fs) == *old(fs) && *final(faults) == *old(faults),
        attempts == 0 ==> r is Ok && *final(fs) == *old(fs) && *final(faults) == *old(faults),
        attempts > 0 && old(fs).has_file(src@) ==> (r is Ok <==> old(faults).fail_next < attempts),
        (r matches Err(e) && e is FileBusy) ==> *final(fs) == *old(fs) && final(faults).fail_next
            == old(faults).fail_next - attempts,
        r matches Err(e) ==> e is FileBusy || e is MissingFile,
        attempts > 0 && r is Ok ==> {
            &&& final(fs).has_file(dest@)
            &&& final(fs).file_data(dest@) == old(fs).file_data(src@)
            &&& !final(fs).has_file(src@)
            &&& forall|q: Seq<char>|
                q != dest@ && q != src@ ==> final(fs).has_file(q) == old(fs).has_file(q)
            &&& forall|q: Seq<char>|
                q != dest@ && q != src@ && old(fs).has_file(q) ==> final(fs).file_data(q) == old(fs).file_data(q) && final(fs).file_stamp(q) == old(fs).file_stamp(q)
            &&& forall|q: Seq<char>| final(fs).has_dir(q) == old(fs).has_dir(q)
        },
{
    if attempts == 0 {
        return Ok(());
    }
    if !fs.file_exists(src) {
        return Err(LibError::MissingFile(src.to_owned()));
    }
    let mut i: usize = 0;
    while i < attempts
        invariant
            fs.inv(),
            i <= attempts,
            i <= old(faults).fail_next,
            faults.fail_next == old(faults).fail_next - i,
            *fs == *old(fs),
            old(fs).has_file(src@),
            src@ != dest@,
        decreases attempts - i,
    {
        if faults.fail_next > 0 {
            faults.fail_next = faults.fail_next - 1;
            i += 1;
        } else {
            let data = take_file(fs, src);
            let ghost s0 = *fs;
            fs.remove_file(dest);
            let ghost s1 = *fs;
            fs.remove_file(src);
            let ghost s2 = *fs;
            fs.write_file(dest, data);
            proof {
                assert(fs.same_at(s2, src@));
                assert(!s2.has_file(src@));
                assert(!fs.has_file(src@));
                assert forall|q: Seq<char>| q != dest@ && q != src@ implies fs.same_at(
                    *old(fs),
                    q,
                ) by {
                    assert(fs.same_at(s2, q));
                    assert(s2.same_at(s1, q));
                    assert(s1.same_at(s0, q));
                }
            }
            return Ok(());
        }
    }
    Err(LibError::FileBusy)
}

} // verus!

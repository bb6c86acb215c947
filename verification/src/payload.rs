//! Extraction of the embedded payload archive into the install root.
//!
//! The archive bytes are read through the zip crate; which entries the
//! archive holds is named abstractly, and the extraction logic —
//! entry-path validation, the user-data skip rule and the writes into
//! the filesystem model — is verified over those names.

use std::io::Read;
use vstd::prelude::*;
use vstd::string::*;
use crate::errors::LibError;
use crate::fs::{in_tree, Fs};
use crate::paths::{is_abs_spec, is_absolute_path, joined, parent_dir, parent_dir_spec};
use crate::strutil::{chars_to_string, contains_spec, contains_substr, starts_with, starts_with_spec, str_eq, str_to_chars};

verus! {

#[verifier::external_type_specification]
#[verifier::external_body]
#[verifier::reject_recursive_types(R)]
pub struct ExZipArchive<R>(zip::ZipArchive<R>);

#[verifier::external_type_specification]
#[verifier::external_body]
#[verifier::reject_recursive_types(T)]
pub struct ExCursor<T>(std::io::Cursor<T>);

/// Whether `blob` is a readable archive.
pub uninterp spec fn zip_ok(blob: Seq<u8>) -> bool;

/// The archive bytes behind an open archive.
pub uninterp spec fn zip_blob(a: zip::ZipArchive<std::io::Cursor<Vec<u8>>>) -> Seq<u8>;

/// How many entries the archive with these bytes holds.
pub uninterp spec fn zip_count(blob: Seq<u8>) -> nat;

/// The stored name of entry `i`.
pub uninterp spec fn zip_entry_name(blob: Seq<u8>, i: int) -> Seq<char>;

/// The decompressed contents of entry `i`.
pub uninterp spec fn zip_entry_data(blob: Seq<u8>, i: int) -> Seq<u8>;

/// Whether entry `i` is a directory entry.
pub uninterp spec fn zip_entry_is_dir(blob: Seq<u8>, i: int) -> bool;

/// Whether entry `i` reads back cleanly (index, headers, checksum and
/// decompression all in order).
pub uninterp spec fn zip_entry_ok(blob: Seq<u8>, i: int) -> bool;

/// Relies on `zip::ZipArchive::new` over an in-memory cursor: whether
/// the bytes parse as an archive, and the archive they parse as,
/// depend on the bytes alone.
#[verifier::external_body]
pub(crate) fn zip_open(blob: Vec<u8>) -> (r: Option<zip::ZipArchive<std::io::Cursor<Vec<u8>>>>)
    ensures
        r is Some <==> zip_ok(blob@),
        r matches Some(a) ==> zip_blob(a) == blob@,
{
    zip::ZipArchive::new(std::io::Cursor::new(blob)).ok()
}

/// Relies on `zip::ZipArchive::len`: the entry count of the archive.
#[verifier::external_body]
pub(crate) fn zip_len(a: &zip::ZipArchive<std::io::Cursor<Vec<u8>>>) -> (r: usize)
    ensures
        r == zip_count(zip_blob(*a)),
{
    a.len()
}

/// Relies on `zip::ZipArchive::by_index` and the entry's `name`,
/// `is_dir` and `Read` impl: entry `i`'s stored name, kind and
/// decompressed bytes, all functions of the archive bytes and index.
#[verifier::external_body]
pub(crate) fn zip_entry(a: &mut zip::ZipArchive<std::io::Cursor<Vec<u8>>>, i: usize) -> (r: Option<
    (String, Vec<u8>, bool),
>)
    requires
        i < zip_count(zip_blob(*old(a))),
    ensures
        zip_blob(*final(a)) == zip_blob(*old(a)),
        r is Some <==> zip_entry_ok(zip_blob(*old(a)), i as int),
        r matches Some(e) ==> e.0@ == zip_entry_name(zip_blob(*old(a)), i as int) && e.1@
            == zip_entry_data(zip_blob(*old(a)), i as int) && e.2 == zip_entry_is_dir(
            zip_blob(*old(a)),
            i as int,
        ),
{
    let mut f = match a.by_index(i) {
        Ok(f) => f,
        Err(_) => {
            return None;
        },
    };
    let name = f.name().to_owned();
    let is_dir = f.is_dir();
    let mut data = Vec::new();
    match f.read_to_end(&mut data) {
        Ok(_) => Some((name, data, is_dir)),
        Err(_) => None,
    }
}

/// Options for payload extraction.
#[derive(Debug, Clone, Copy)]
pub struct PayloadOptions {
    /// Keep any file that already exists under the user-data subtree.
    pub skip_existing_data: bool,
}

impl Default for PayloadOptions {
    fn default() -> (r: Self)
        ensures
            r.skip_existing_data,
    {
        PayloadOptions { skip_existing_data: true }
    }
}

/// An archive entry name with forward slashes mapped to the platform
/// separator.
pub open spec fn convert_seps(s: Seq<char>) -> Seq<char> {
    s.map_values(|c: char| if c == '/' { '\\' } else { c })
}

pub(crate) fn convert_seps_exec(s: &str) -> (r: String)
    ensures
        r@ == convert_seps(s@),
{
    let n = s.unicode_len();
    let mut out: Vec<char> = Vec::new();
    let mut i: usize = 0;
    while i < n
        invariant
            i <= n,
            n == s@.len(),
            out@ == s@.subrange(0, i as int).map_values(|c: char| if c == '/' { '\\' } else { c }),
        decreases n - i,
    {
        let c = s.get_char(i);
        let mapped: char = if c == '/' {
            '\\'
        } else {
            c
        };
        out.push(mapped);
        proof {
            assert(out@ =~= s@.subrange(0, i + 1).map_values(
                |c: char| if c == '/' { '\\' } else { c },
            ));
        }
        i += 1;
    }
    proof {
        assert(s@.subrange(0, n as int) =~= s@);
    }
    chars_to_string(&out)
}

/// An entry path that must not be extracted: empty, absolute, or
/// holding a parent-directory component.
pub open spec fn bad_entry_path(p: Seq<char>) -> bool {
    ||| p.len() == 0
    ||| is_abs_spec(p)
    ||| p == ".."@
    ||| starts_with_spec(p, "..\\"@)
    ||| ends_with_spec(p, "\\.."@)
    ||| contains_spec(p, "\\..\\"@)
}

pub open spec fn ends_with_spec(s: Seq<char>, p: Seq<char>) -> bool {
    s.len() >= p.len() && s.subrange(s.len() - p.len(), s.len() as int) == p
}

pub(crate) fn ends_with(s: &str, p: &str) -> (r: bool)
    ensures
        r == ends_with_spec(s@, p@),
{
    let n = s.unicode_len();
    let m = p.unicode_len();
    if n < m {
        return false;
    }
    let tail = crate::strutil::suffix_from(s, n - m);
    let r = str_eq(tail.as_str(), p);
    proof {
        assert(s@.subrange(s@.len() - p@.len(), s@.len() as int) == tail@);
    }
    r
}

fn bad_entry_path_exec(p: &str) -> (r: bool)
    ensures
        r == bad_entry_path(p@),
{
    proof {
        reveal_strlit("..");
        reveal_strlit("..\\");
        reveal_strlit("\\..");
        reveal_strlit("\\..\\");
    }
    p.unicode_len() == 0 || is_absolute_path(p) || str_eq(p, "..") || starts_with(p, "..\\")
        || ends_with(p, "\\..") || contains_substr(p, "\\..\\")
}

/// The user-data subtree under the install root.
pub open spec fn data_dir_spec(root: Seq<char>) -> Seq<char> {
    joined(root, "data"@)
}

/// The path where entry `i` of `blob` lands under `root`.
pub open spec fn entry_dest(root: Seq<char>, blob: Seq<u8>, i: int) -> Seq<char> {
    joined(root, convert_seps(zip_entry_name(blob, i)))
}

/// Whether `q` lies on the way to (or at) some entry's destination:
/// the only places extraction may create a directory.
pub open spec fn entry_dir(blob: Seq<u8>, root: Seq<char>, q: Seq<char>) -> bool {
    exists|i: int| 0 <= i < zip_count(blob) && #[trigger] in_tree(q, entry_dest(root, blob, i))
}

/// Among the file entries landing on `target`, a last one exists.
pub proof fn lemma_last_entry_hit(root: Seq<char>, blob: Seq<u8>, target: Seq<char>, n: int)
    requires
        exists|i: int|
            0 <= i < n && file_entry(blob, i) && #[trigger] entry_dest(root, blob, i) == target,
    ensures
        exists|i: int|
            0 <= i < n && file_entry(blob, i) && #[trigger] entry_dest(root, blob, i) == target
                && (forall|j: int|
                i < j < n && file_entry(blob, j) ==> entry_dest(root, blob, j) != target),
    decreases n,
{
    let w = choose|i: int|
        0 <= i < n && file_entry(blob, i) && #[trigger] entry_dest(root, blob, i) == target;
    if file_entry(blob, n - 1) && entry_dest(root, blob, n - 1) == target {
        let i = n - 1;
        assert(0 <= i < n && file_entry(blob, i) && entry_dest(root, blob, i) == target && (forall|
            j: int,
        |
            i < j < n && file_entry(blob, j) ==> entry_dest(root, blob, j) != target));
    } else {
        assert(0 <= w < n - 1);
        lemma_last_entry_hit(root, blob, target, n - 1);
        let i = choose|i: int|
            0 <= i < n - 1 && file_entry(blob, i) && #[trigger] entry_dest(root, blob, i) == target
                && (forall|j: int|
                i < j < n - 1 && file_entry(blob, j) ==> entry_dest(root, blob, j) != target);
        assert(0 <= i < n && file_entry(blob, i) && entry_dest(root, blob, i) == target && (forall|
            j: int,
        |
            i < j < n && file_entry(blob, j) ==> entry_dest(root, blob, j) != target));
    }
}

/// Every entry of the archive reads back and carries an acceptable
/// path.
pub open spec fn payload_wf(blob: Seq<u8>) -> bool {
    &&& blob.len() > 0
    &&& zip_ok(blob)
    &&& forall|i: int| 0 <= i < zip_count(blob) ==> zip_entry_ok(blob, i)
    &&& forall|i: int|
        0 <= i < zip_count(blob) ==> !bad_entry_path(convert_seps(#[trigger] zip_entry_name(blob, i)))
}

/// A file entry with an acceptable path.
pub open spec fn file_entry(blob: Seq<u8>, i: int) -> bool {
    0 <= i < zip_count(blob) && !zip_entry_is_dir(blob, i) && !bad_entry_path(
        convert_seps(zip_entry_name(blob, i)),
    )
}

/// Extracts the payload archive `blob` into `dest_root`.
///
/// Entries under the user-data subtree that already exist are kept
/// when the option says so; every other file entry is written, later
/// entries of the same name winning. Absolute or parent-escaping entry
/// paths abort the extraction.
#[verifier::rlimit(100)]
#[verifier::spinoff_prover]
pub fn install_payload_with_options(
    fs: &mut Fs,
    dest_root: &str,
    blob: &Vec<u8>,
    options: PayloadOptions,
) -> (r: Result<(), LibError>)
    requires
        old(fs).inv(),
    ensures
        final(fs).inv(),
        blob@.len() == 0 ==> r == Result::<(), LibError>::Err(LibError::BadPayload) && *final(fs)
            == *old(fs),
        blob@.len() > 0 && !zip_ok(blob@) ==> r == Result::<(), LibError>::Err(LibError::BadPayload)
            && *final(fs) == *old(fs),
        // a well-formed archive always extracts
        payload_wf(blob@) ==> r is Ok,
        r matches Err(e) ==> e is BadPayload || e is BadPayloadPath,
        // user data survives: files already under the data subtree stay
        options.skip_existing_data ==> forall|q: Seq<char>|
            in_tree(data_dir_spec(dest_root@), q) && old(fs).has_file(q) ==> final(fs).has_file(q)
                && final(fs).file_data(q) == old(fs).file_data(q),
        // paths no file entry lands on keep their file state
        forall|q: Seq<char>|
            (forall|i: int| file_entry(blob@, i) ==> entry_dest(dest_root@, blob@, i) != q) ==> final(fs).has_file(q) == old(fs).has_file(q) && (old(fs).has_file(q) ==> final(fs).file_data(q)
                == old(fs).file_data(q) && final(fs).file_stamp(q) == old(fs).file_stamp(q)),
        // outside the data subtree, the last entry for a path wins
        r is Ok ==> forall|i: int|
            file_entry(blob@, i) && !(options.skip_existing_data && in_tree(
                data_dir_spec(dest_root@),
                entry_dest(dest_root@, blob@, i),
            )) && (forall|j: int|
                i < j < zip_count(blob@) && file_entry(blob@, j) ==> entry_dest(
                    dest_root@,
                    blob@,
                    j,
                ) != entry_dest(dest_root@, blob@, i)) ==> final(fs).has_file(
                entry_dest(dest_root@, blob@, i),
            ) && final(fs).file_data(entry_dest(dest_root@, blob@, i)) == zip_entry_data(blob@, i),
        forall|q: Seq<char>| old(fs).has_dir(q) ==> final(fs).has_dir(q),
        // every new directory lies on the way to some entry's
        // destination
        forall|q: Seq<char>|
            #[trigger] final(fs).has_dir(q) ==> old(fs).has_dir(q) || (in_tree(dest_root@, q)
                && entry_dir(blob@, dest_root@, q)),
        // a written file entry gets its parent directory
        r is Ok ==> forall|i: int|
            file_entry(blob@, i) && !(options.skip_existing_data && in_tree(
                data_dir_spec(dest_root@),
                #[trigger] entry_dest(dest_root@, blob@, i),
            )) ==> final(fs).has_dir(
                crate::paths::parent_dir_spec(entry_dest(dest_root@, blob@, i)),
            ),
{
    if blob.len() == 0 {
        return Err(LibError::BadPayload);
    }
    let blob_copy = crate::fs::copy_bytes(blob);
    let mut archive = match zip_open(blob_copy) {
        Some(a) => a,
        None => {
            return Err(LibError::BadPayload);
        },
    };
    let n = zip_len(&archive);
    let mut i: usize = 0;
    let ghost b = blob@;
    let ghost root = dest_root@;
    let ghost data_tree = data_dir_spec(root);
    while i < n
        invariant
            fs.inv(),
            i <= n,
            n == zip_count(b),
            zip_blob(archive) == b,
            b == blob@,
            blob@.len() > 0,
            zip_ok(b),
            options.skip_existing_data ==> forall|q: Seq<char>|
                in_tree(data_tree, q) && old(fs).has_file(q) ==> fs.has_file(q) && fs.file_data(q)
                    == old(fs).file_data(q),
            forall|q: Seq<char>|
                (forall|k: int|
                    file_entry(b, k) && k < i ==> entry_dest(root, b, k) != q) ==> fs.has_file(q)
                    == old(fs).has_file(q) && (old(fs).has_file(q) ==> fs.file_data(q) == old(fs).file_data(q) && fs.file_stamp(q) == old(fs).file_stamp(q)),
            forall|k: int|
                file_entry(b, k) && k < i && !(options.skip_existing_data && in_tree(
                    data_tree,
                    entry_dest(root, b, k),
                )) && (forall|j: int|
                    k < j < i && file_entry(b, j) ==> entry_dest(root, b, j) != entry_dest(
                        root,
                        b,
                        k,
                    )) ==> fs.has_file(entry_dest(root, b, k)) && fs.file_data(
                    entry_dest(root, b, k),
                ) == zip_entry_data(b, k),
            forall|q: Seq<char>| old(fs).has_dir(q) ==> fs.has_dir(q),
            forall|q: Seq<char>|
                #[trigger] fs.has_dir(q) ==> old(fs).has_dir(q) || (in_tree(root, q) && entry_dir(
                    b,
                    root,
                    q,
                )),
            forall|k: int|
                file_entry(b, k) && k < i && !(options.skip_existing_data && in_tree(
                    data_tree,
                    #[trigger] entry_dest(root, b, k),
                )) ==> fs.has_dir(crate::paths::parent_dir_spec(entry_dest(root, b, k))),
            data_tree == data_dir_spec(root),
            root == dest_root@,
        decreases n - i,
    {
        let entry = match zip_entry(&mut archive, i) {
            Some(e) => e,
            None => {
                proof {
                    assert(!zip_entry_ok(b, i as int));
                }
                return Err(LibError::BadPayload);
            },
        };
        let (name, data, is_dir) = entry;
        let conv = convert_seps_exec(name.as_str());
        if bad_entry_path_exec(conv.as_str()) {
            proof {
                assert(bad_entry_path(convert_seps(zip_entry_name(b, i as int))));
                assert forall|q: Seq<char>|
                    fs.has_dir(q) && !old(fs).has_dir(q) implies in_tree(root, q) && entry_dir(
                        b,
                        root,
                        q,
                    ) by {
                    assert(fs.has_dir(q));
                }
            }
            return Err(LibError::BadPayloadPath);
        }
        let out_path = crate::paths::join(dest_root, conv.as_str());
        proof {
            assert(out_path@ == entry_dest(root, b, i as int));
            // the base name starts past the root, after a backslash
            assert(out_path@[root.len() as int] == '\\');
            lemma_base_start_ge_root(out_path@, root.len() as int + 1);
            lemma_base_start_sep(out_path@);
            let bb = crate::paths::base_start(out_path@);
            assert(out_path@[bb - 1] == '\\') by {
                if bb - 1 > root.len() {
                    let j = bb - 1 - root.len() - 1;
                    assert(out_path@[bb - 1] == conv@[j]);
                    assert(conv@[j] == (if zip_entry_name(b, i as int)[j] == '/' {
                        '\\'
                    } else {
                        zip_entry_name(b, i as int)[j]
                    }));
                    assert(crate::paths::is_sep(out_path@[bb - 1]));
                }
            }
        }
        let is_data = str_eq(conv.as_str(), "data") || starts_with(conv.as_str(), "data\\");
        proof {
            reveal_strlit("data");
            reveal_strlit("data\\");
            let rl = root.len() as int;
            assert(data_tree.len() == rl + 5);
            assert(forall|k2: int| 0 <= k2 < rl + 1 ==> out_path@[k2] == data_tree[k2]);
            assert(forall|k2: int| 0 <= k2 < 4 ==> data_tree[rl + 1 + k2] == "data"@[k2]);
            if is_data {
                assert(in_tree(data_tree, out_path@)) by {
                    if conv@ == "data"@ {
                        assert(out_path@ =~= data_tree);
                    } else {
                        assert(conv@.subrange(0, 5) == "data\\"@);
                        assert forall|k2: int|
                            0 <= k2 < data_tree.len() implies out_path@[k2] == data_tree[k2] by {
                            if k2 >= rl + 1 {
                                assert(out_path@[k2] == conv@[k2 - rl - 1]);
                                assert(conv@[k2 - rl - 1] == conv@.subrange(0, 5)[k2 - rl - 1]);
                            }
                        }
                        assert(out_path@.subrange(0, data_tree.len() as int) =~= data_tree);
                        assert(out_path@[data_tree.len() as int] == conv@[4]);
                        assert(conv@[4] == conv@.subrange(0, 5)[4]);
                    }
                }
            } else {
                assert(!in_tree(data_tree, out_path@)) by {
                    if in_tree(data_tree, out_path@) {
                        if out_path@ == data_tree {
                            assert forall|k2: int| 0 <= k2 < 4 implies conv@[k2]
                                == "data"@.index(k2) by {
                                assert(conv@[k2] == out_path@[rl + 1 + k2]);
                            }
                            assert(conv@.len() == 4);
                            assert(conv@ =~= "data"@);
                        } else {
                            assert(out_path@.subrange(0, data_tree.len() as int) == data_tree);
                            assert forall|k2: int| 0 <= k2 < 5 implies conv@[k2]
                                == "data\\"@.index(k2) by {
                                assert(conv@[k2] == out_path@[rl + 1 + k2]);
                                if k2 < 4 {
                                    assert(out_path@[rl + 1 + k2] == out_path@.subrange(
                                        0,
                                        data_tree.len() as int,
                                    )[rl + 1 + k2]);
                                } else {
                                    assert(out_path@[rl + 1 + k2] == '\\');
                                }
                            }
                            assert(conv@.subrange(0, 5) =~= "data\\"@);
                        }
                    }
                }
            }
        }
        let skip = options.skip_existing_data && is_data && (fs.file_exists(out_path.as_str())
            || fs.dir_exists(out_path.as_str()));
        let ghost pre = *fs;
        let ghost wrote = !skip && !is_dir;
        proof {
            assert forall|q: Seq<char>|
                pre.has_dir(q) implies old(fs).has_dir(q) || (in_tree(root, q) && entry_dir(
                    b,
                    root,
                    q,
                )) by {
                assert(fs.has_dir(q) == pre.has_dir(q));
            }
        }
        if !skip {
            if is_dir {
                fs.create_dir(out_path.as_str());
            } else {
                match parent_dir(out_path.as_str()) {
                    Some(d) => {
                        fs.create_dir(d.as_str());
                    },
                    None => {},
                }
                fs.write_file(out_path.as_str(), data);
            }
        }
        proof {
            lemma_join_parent_in_tree(root, conv@);
            // the only file this iteration can change is the entry's own
            // destination
            assert forall|q: Seq<char>| q != out_path@ implies fs.has_file(q) == pre.has_file(q)
                && (pre.has_file(q) ==> fs.file_data(q) == pre.file_data(q) && fs.file_stamp(q)
                == pre.file_stamp(q)) by {}
            assert(forall|q: Seq<char>| pre.has_dir(q) ==> fs.has_dir(q));
            assert forall|q: Seq<char>|
                fs.has_dir(q) && !old(fs).has_dir(q) implies in_tree(root, q) && entry_dir(
                    b,
                    root,
                    q,
                ) by {
                if !pre.has_dir(q) {
                    lemma_join_parent_in_tree(root, conv@);
                    if is_dir {
                        assert(q == out_path@);
                        assert(in_tree(q, entry_dest(root, b, i as int)));
                    } else {
                        assert(q == crate::paths::parent_dir_spec(out_path@));
                        lemma_parent_in_tree(out_path@);
                        assert(in_tree(q, entry_dest(root, b, i as int)));
                    }
                    assert(in_tree(root, q));
                    assert(entry_dir(b, root, q)) by {
                        assert(0 <= i < zip_count(b) && in_tree(q, entry_dest(root, b, i as int)));
                    }
                }
            }
            assert forall|k: int|
                file_entry(b, k) && k < i + 1 && !(options.skip_existing_data && in_tree(
                    data_tree,
                    #[trigger] entry_dest(root, b, k),
                )) implies fs.has_dir(crate::paths::parent_dir_spec(entry_dest(root, b, k))) by {
                if k == i {
                    assert(out_path@ == entry_dest(root, b, i as int));
                    assert(!is_dir);
                    if skip {
                        assert(is_data);
                        assert(in_tree(data_tree, out_path@));
                    } else {
                        assert(fs.has_dir(crate::paths::parent_dir_spec(out_path@)));
                    }
                } else {
                    assert(pre.has_dir(crate::paths::parent_dir_spec(entry_dest(root, b, k))));
                }
            }
            if wrote {
                assert(fs.has_file(out_path@) && fs.file_data(out_path@) == data@);
            } else {
                assert(forall|q: Seq<char>| fs.has_file(q) == pre.has_file(q) && (pre.has_file(q)
                    ==> fs.file_data(q) == pre.file_data(q) && fs.file_stamp(q) == pre.file_stamp(
                    q,
                )));
            }
            if options.skip_existing_data {
                assert forall|q: Seq<char>|
                    in_tree(data_tree, q) && old(fs).has_file(q) implies fs.has_file(q)
                    && fs.file_data(q) == old(fs).file_data(q) by {
                    if q == out_path@ && wrote {
                        assert(is_data);
                        assert(pre.has_file(q));
                        assert(skip);
                    }
                }
            }
            assert forall|q: Seq<char>|
                (forall|k: int|
                    file_entry(b, k) && k < i + 1 ==> entry_dest(root, b, k)
                        != q) implies fs.has_file(q) == old(fs).has_file(q) && (old(fs).has_file(q)
                ==> fs.file_data(q) == old(fs).file_data(q) && fs.file_stamp(q) == old(
                fs,
            ).file_stamp(q)) by {
                assert(forall|k: int| file_entry(b, k) && k < i ==> entry_dest(root, b, k) != q);
                if wrote && q == out_path@ {
                    assert(file_entry(b, i as int));
                    assert(entry_dest(root, b, i as int) != q);
                    assert(false);
                }
            }
            assert forall|k: int|
                file_entry(b, k) && k < i + 1 && !(options.skip_existing_data && in_tree(
                    data_tree,
                    entry_dest(root, b, k),
                )) && (forall|j: int|
                    k < j < i + 1 && file_entry(b, j) ==> entry_dest(root, b, j) != entry_dest(
                        root,
                        b,
                        k,
                    )) implies fs.has_file(entry_dest(root, b, k)) && fs.file_data(
                entry_dest(root, b, k),
            ) == zip_entry_data(b, k) by {
                if k == i {
                    assert(file_entry(b, i as int));
                    assert(!is_dir);
                    if options.skip_existing_data {
                        assert(!in_tree(data_tree, out_path@));
                        assert(!is_data);
                        assert(!skip);
                    } else {
                        assert(!skip);
                    }
                    assert(wrote);
                } else {
                    assert(forall|j: int|
                        k < j < i && file_entry(b, j) ==> entry_dest(root, b, j) != entry_dest(
                            root,
                            b,
                            k,
                        ));
                    assert(pre.has_file(entry_dest(root, b, k)) && pre.file_data(
                        entry_dest(root, b, k),
                    ) == zip_entry_data(b, k));
                    if wrote && entry_dest(root, b, k) == out_path@ {
                        assert(file_entry(b, i as int));
                        assert(entry_dest(root, b, i as int) != entry_dest(root, b, k));
                        assert(false);
                    }
                }
            }
        }
        i += 1;
    }
    Ok(())
}

/// A joined path and its parent directory both lie in the root's tree.
pub proof fn lemma_join_parent_in_tree(root: Seq<char>, x: Seq<char>)
    ensures
        in_tree(root, joined(root, x)),
        in_tree(root, parent_dir_spec(joined(root, x))),
{
    let q = joined(root, x);
    assert(q.subrange(0, root.len() as int) =~= root);
    assert(q[root.len() as int] == '\\');
    let b = crate::paths::base_start(q);
    lemma_base_start_ge_root(q, root.len() as int + 1);
    let par = parent_dir_spec(q);
    assert(par == q.subrange(0, b - 1));
    if b - 1 == root.len() {
        assert(par =~= root);
    } else {
        assert(par.subrange(0, root.len() as int) =~= root);
        assert(par[root.len() as int] == q[root.len() as int]);
    }
}

/// A path with a separator at `s - 1` has its base name no earlier.
/// The character before the base name is the separator that was cut.
pub proof fn lemma_base_start_sep(s: Seq<char>)
    ensures
        crate::paths::base_start(s) > 0 ==> crate::paths::is_sep(
            s[crate::paths::base_start(s) - 1],
        ),
    decreases s.len(),
{
    if s.len() > 0 && !crate::paths::is_sep(s[s.len() - 1]) {
        lemma_base_start_sep(s.drop_last());
        crate::paths::lemma_base_start_bounds(s.drop_last());
        if crate::paths::base_start(s.drop_last()) > 0 {
            assert(s.drop_last()[crate::paths::base_start(s) - 1] == s[crate::paths::base_start(s)
                - 1]);
        }
    }
}

/// A path with a parent separator lies in its parent directory's tree.
pub proof fn lemma_parent_in_tree(q: Seq<char>)
    requires
        0 < crate::paths::base_start(q),
        q[crate::paths::base_start(q) - 1] == '\\',
    ensures
        in_tree(crate::paths::parent_dir_spec(q), q),
{
    crate::paths::lemma_base_start_bounds(q);
    let b = crate::paths::base_start(q);
    let par = crate::paths::parent_dir_spec(q);
    assert(q.subrange(0, b - 1) == par);
}

pub proof fn lemma_base_start_ge_root(q: Seq<char>, s: int)
    requires
        1 <= s <= q.len(),
        crate::paths::is_sep(q[s - 1]),
    ensures
        crate::paths::base_start(q) >= s,
        crate::paths::base_start(q) <= q.len(),
    decreases q.len(),
{
    if q.len() == 0 {
    } else if crate::paths::is_sep(q[q.len() - 1]) {
    } else {
        assert(s < q.len());
        lemma_base_start_ge_root(q.drop_last(), s);
    }
}

/// Extracts the payload archive; files that already exist under the
/// user-data subtree are kept, so user data survives re-extraction.
pub fn install_payload(fs: &mut Fs, dest_root: &str, blob: &Vec<u8>) -> (r: Result<(), LibError>)
    requires
        old(fs).inv(),
    ensures
        final(fs).inv(),
        blob@.len() == 0 ==> r == Result::<(), LibError>::Err(LibError::BadPayload) && *final(fs)
            == *old(fs),
        payload_wf(blob@) ==> r is Ok,
        r matches Err(e) ==> e is BadPayload || e is BadPayloadPath,
        // user data survives
        forall|q: Seq<char>|
            in_tree(data_dir_spec(dest_root@), q) && old(fs).has_file(q) ==> final(fs).has_file(q)
                && final(fs).file_data(q) == old(fs).file_data(q),
        forall|q: Seq<char>|
            (forall|i: int| file_entry(blob@, i) ==> entry_dest(dest_root@, blob@, i) != q) ==> final(fs).has_file(q) == old(fs).has_file(q) && (old(fs).has_file(q) ==> final(fs).file_data(q)
                == old(fs).file_data(q) && final(fs).file_stamp(q) == old(fs).file_stamp(q)),
        r is Ok ==> forall|i: int|
            file_entry(blob@, i) && !in_tree(
                data_dir_spec(dest_root@),
                entry_dest(dest_root@, blob@, i),
            ) && (forall|j: int|
                i < j < zip_count(blob@) && file_entry(blob@, j) ==> entry_dest(
                    dest_root@,
                    blob@,
                    j,
                ) != entry_dest(dest_root@, blob@, i)) ==> final(fs).has_file(
                entry_dest(dest_root@, blob@, i),
            ) && final(fs).file_data(entry_dest(dest_root@, blob@, i)) == zip_entry_data(blob@, i),
        forall|q: Seq<char>| old(fs).has_dir(q) ==> final(fs).has_dir(q),
{
    install_payload_with_options(fs, dest_root, blob, PayloadOptions { skip_existing_data: true })
}

} // verus!

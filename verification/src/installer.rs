//! The deployment engine: the version state machine that decides
//! between install, upgrade and launch, and the backup/rollback
//! transaction that a failed install or upgrade is unwound by.

use vstd::prelude::*;
use vstd::string::*;
use crate::errors::LibError;
use crate::fs::{in_tree, lemma_rebase_roundtrip, lemma_trees_disjoint, rebase, Fs};
use crate::paths::{joined, state_path_spec};
use crate::strutil::{str_eq, trim, trim_spec};
use crate::dec::dec_spec;

verus! {

/// The compile-time configuration constants, as one value constructed
/// at process start.
pub struct AppConfig {
    pub app_id: String,
    pub name: String,
    pub product_name: String,
    pub version: String,
    pub entry_point: String,
    pub icon: String,
    pub install_dir: String,
    pub update_manifest_url: String,
    pub instance_link: String,
    pub auto_update_enabled: bool,
}

/// The application's display name: the product name, else the plain
/// name, else a fixed fallback, each trimmed.
pub fn app_name_from_config(cfg: &AppConfig) -> (r: String)
    ensures
        trim_spec(cfg.product_name@).len() > 0 ==> r@ == trim_spec(cfg.product_name@),
        trim_spec(cfg.product_name@).len() == 0 && trim_spec(cfg.name@).len() > 0 ==> r@
            == trim_spec(cfg.name@),
        trim_spec(cfg.product_name@).len() == 0 && trim_spec(cfg.name@).len() == 0 ==> r@
            == "UvesselApp"@,
{
    let product = trim(cfg.product_name.as_str());
    if product.unicode_len() > 0 {
        return product;
    }
    let name = trim(cfg.name.as_str());
    if name.unicode_len() > 0 {
        return name;
    }
    "UvesselApp".to_owned()
}

/// Where the launcher image is written under the root.
pub open spec fn shim_dest_spec(root: Seq<char>, app_name: Seq<char>) -> Seq<char> {
    joined(root, app_name + ".exe"@)
}

pub fn shim_dest(root: &str, app_name: &str) -> (r: String)
    ensures
        r@ == shim_dest_spec(root@, app_name@),
{
    let file = crate::strutil::concat2(app_name, ".exe");
    crate::paths::join(root, file.as_str())
}

/// Where the self-copy for uninstallation is kept.
pub open spec fn uninstaller_dest_spec(root: Seq<char>) -> Seq<char> {
    joined(root, "uninstaller.exe"@)
}

/// The payload tree and the runtime's dependency environment.
pub open spec fn app_dir_spec(root: Seq<char>) -> Seq<char> {
    joined(root, "app"@)
}

pub open spec fn venv_dir_spec(root: Seq<char>) -> Seq<char> {
    joined(joined(root, ".runtime"@), "venv"@)
}

pub open spec fn cache_dir_spec(root: Seq<char>) -> Seq<char> {
    joined(joined(root, ".runtime"@), "cache"@)
}

/// The nonce-tagged sibling paths that an upgrade parks the previous
/// payload and environment under.
pub open spec fn app_backup_spec(root: Seq<char>, nonce: u64) -> Seq<char> {
    joined(root, "app.backup."@ + dec_spec(nonce as nat))
}

pub open spec fn venv_backup_spec(root: Seq<char>, nonce: u64) -> Seq<char> {
    joined(root, "venv.backup."@ + dec_spec(nonce as nat))
}

fn app_backup_path(root: &str, nonce: u64) -> (r: String)
    ensures
        r@ == app_backup_spec(root@, nonce),
{
    let digits = crate::dec::u64_to_dec(nonce);
    let name = crate::strutil::concat2("app.backup.", digits.as_str());
    proof {
        reveal_strlit("app.backup.");
    }
    crate::paths::join(root, name.as_str())
}

fn venv_backup_path(root: &str, nonce: u64) -> (r: String)
    ensures
        r@ == venv_backup_spec(root@, nonce),
{
    let digits = crate::dec::u64_to_dec(nonce);
    let name = crate::strutil::concat2("venv.backup.", digits.as_str());
    proof {
        reveal_strlit("venv.backup.");
    }
    crate::paths::join(root, name.as_str())
}

/// Trees joined under the same root relate exactly as their names do.
pub proof fn lemma_joined_in_tree(root: Seq<char>, a: Seq<char>, b: Seq<char>)
    ensures
        in_tree(joined(root, a), joined(root, b)) <==> in_tree(a, b),
{
    let ja = joined(root, a);
    let jb = joined(root, b);
    if in_tree(a, b) {
        if a == b {
        } else {
            assert(jb.subrange(0, ja.len() as int) =~= ja) by {
                assert(forall|k: int|
                    0 <= k < a.len() ==> b[k] == #[trigger] b.subrange(0, a.len() as int)[k]);
            }
            assert(jb[ja.len() as int] == b[a.len() as int]);
        }
    }
    if in_tree(ja, jb) {
        if ja == jb {
            assert(a =~= b) by {
                assert(forall|k: int| 0 <= k < a.len() ==> a[k] == ja[root.len() + 1 + k]);
                assert(forall|k: int| 0 <= k < b.len() ==> b[k] == jb[root.len() + 1 + k]);
            }
        } else {
            assert(b.len() > a.len());
            assert(b.subrange(0, a.len() as int) =~= a) by {
                assert forall|k: int| 0 <= k < a.len() implies b.subrange(0, a.len() as int)[k]
                    == a[k] by {
                    assert(b[k] == jb[root.len() + 1 + k]);
                    assert(jb.subrange(0, ja.len() as int)[root.len() + 1 + k] == a[k]);
                }
            }
            assert(b[a.len() as int] == jb[ja.len() as int]);
        }
    }
}

/// The transient rename-aside of the previous payload and environment.
pub struct UpgradeBackup {
    pub app_backup: Option<String>,
    pub venv_backup: Option<String>,
}

impl UpgradeBackup {
    /// Parks the payload and environment trees, when they exist, under
    /// the nonce-tagged backup paths.
    #[verifier::rlimit(100)]
    pub fn create(fs: &mut Fs, root: &str, nonce: u64) -> (r: Result<UpgradeBackup, LibError>)
        requires
            old(fs).inv(),
            !in_tree(app_dir_spec(root@), app_backup_spec(root@, nonce)),
            !in_tree(app_backup_spec(root@, nonce), app_dir_spec(root@)),
            !in_tree(venv_dir_spec(root@), venv_backup_spec(root@, nonce)),
            !in_tree(venv_backup_spec(root@, nonce), venv_dir_spec(root@)),
            !in_tree(app_backup_spec(root@, nonce), venv_dir_spec(root@)),
            !in_tree(venv_dir_spec(root@), app_backup_spec(root@, nonce)),
            !old(fs).tree_used(app_backup_spec(root@, nonce)),
            !old(fs).tree_used(venv_backup_spec(root@, nonce)),
            !in_tree(venv_backup_spec(root@, nonce), app_backup_spec(root@, nonce)),
            !in_tree(app_backup_spec(root@, nonce), venv_backup_spec(root@, nonce)),
            !in_tree(app_dir_spec(root@), venv_backup_spec(root@, nonce)),
            !in_tree(venv_backup_spec(root@, nonce), app_dir_spec(root@)),
            !in_tree(app_dir_spec(root@), venv_dir_spec(root@)),
            !in_tree(venv_dir_spec(root@), app_dir_spec(root@)),
        ensures
            final(fs).inv(),
            final(fs).now() == old(fs).now(),
            r matches Ok(b) ==> {
                &&& (b.app_backup is Some <==> old(fs).tree_used(app_dir_spec(root@)))
                &&& (b.app_backup matches Some(p) ==> p@ == app_backup_spec(root@, nonce))
                &&& (b.venv_backup is Some <==> old(fs).tree_used(venv_dir_spec(root@)))
                &&& (b.venv_backup matches Some(p) ==> p@ == venv_backup_spec(root@, nonce))
                &&& forall|q: Seq<char>|
                    !in_tree(app_dir_spec(root@), q) && !in_tree(app_backup_spec(root@, nonce), q)
                        && !in_tree(venv_dir_spec(root@), q) && !in_tree(
                        venv_backup_spec(root@, nonce),
                        q,
                    ) ==> final(fs).same_at(*old(fs), q)
                &&& forall|p: Seq<char>|
                    #[trigger] in_tree(app_dir_spec(root@), p) ==> !final(fs).has_file(p) && !final(fs).has_dir(p) && final(fs).has_file(
                        rebase(app_dir_spec(root@), app_backup_spec(root@, nonce), p),
                    ) == old(fs).has_file(p) && (old(fs).has_file(p) ==> final(fs).file_data(
                        rebase(app_dir_spec(root@), app_backup_spec(root@, nonce), p),
                    ) == old(fs).file_data(p) && final(fs).file_stamp(
                        rebase(app_dir_spec(root@), app_backup_spec(root@, nonce), p),
                    ) == old(fs).file_stamp(p)) && final(fs).has_dir(
                        rebase(app_dir_spec(root@), app_backup_spec(root@, nonce), p),
                    ) == old(fs).has_dir(p)
                &&& forall|p: Seq<char>|
                    #[trigger] in_tree(venv_dir_spec(root@), p) ==> !final(fs).has_file(p)
                        && !final(fs).has_dir(p) && final(fs).has_file(
                        rebase(venv_dir_spec(root@), venv_backup_spec(root@, nonce), p),
                    ) == old(fs).has_file(p) && (old(fs).has_file(p) ==> final(fs).file_data(
                        rebase(venv_dir_spec(root@), venv_backup_spec(root@, nonce), p),
                    ) == old(fs).file_data(p) && final(fs).file_stamp(
                        rebase(venv_dir_spec(root@), venv_backup_spec(root@, nonce), p),
                    ) == old(fs).file_stamp(p)) && final(fs).has_dir(
                        rebase(venv_dir_spec(root@), venv_backup_spec(root@, nonce), p),
                    ) == old(fs).has_dir(p)
            },
            r is Ok,
    {
        let app_dir = crate::paths::app_dir(root);
        let rt = crate::paths::runtime_dir(root);
        let venv_dir = crate::paths::join(rt.as_str(), "venv");
        let app_bak = app_backup_path(root, nonce);
        let venv_bak = venv_backup_path(root, nonce);
        let ghost pre = *fs;
        let app_backup: Option<String> = if fs.tree_exists(app_dir.as_str()) {
            match fs.rename_tree(app_dir.as_str(), app_bak.as_str()) {
                Ok(()) => Some(app_bak),
                Err(e) => {
                    // the backup path was checked free beforehand
                    proof {
                        assert(false);
                    }
                    return Err(e);
                },
            }
        } else {
            None
        };
        let ghost mid = *fs;
        proof {
            let vd = venv_dir_spec(root@);
            assert(mid.tree_used(vd) == pre.tree_used(vd)) by {
                if mid.tree_used(vd) {
                    let p = choose|p: Seq<char>| #[trigger] in_tree(vd, p) && mid.node_exists(p);
                    lemma_trees_disjoint(app_dir_spec(root@), vd, p);
                    lemma_trees_disjoint(app_backup_spec(root@, nonce), vd, p);
                    assert(mid.same_at(pre, p));
                }
                if pre.tree_used(vd) {
                    let p = choose|p: Seq<char>| #[trigger] in_tree(vd, p) && pre.node_exists(p);
                    lemma_trees_disjoint(app_dir_spec(root@), vd, p);
                    lemma_trees_disjoint(app_backup_spec(root@, nonce), vd, p);
                    assert(mid.same_at(pre, p));
                }
            }
        }
        let venv_backup: Option<String> = if fs.tree_exists(venv_dir.as_str()) {
            match fs.rename_tree(venv_dir.as_str(), venv_bak.as_str()) {
                Ok(()) => Some(venv_bak),
                Err(e) => {
                    proof {
                        // the venv backup tree was empty before and the
                        // first rename put nothing into it
                        assert(!mid.tree_used(venv_backup_spec(root@, nonce))) by {
                            if mid.tree_used(venv_backup_spec(root@, nonce)) {
                                let p = choose|p: Seq<char>|
                                    #[trigger] in_tree(venv_backup_spec(root@, nonce), p)
                                        && mid.node_exists(p);
                                lemma_trees_disjoint(
                                    app_dir_spec(root@),
                                    venv_backup_spec(root@, nonce),
                                    p,
                                );
                                lemma_trees_disjoint(
                                    app_backup_spec(root@, nonce),
                                    venv_backup_spec(root@, nonce),
                                    p,
                                );
                                assert(mid.same_at(pre, p));
                            }
                        }
                        assert(false);
                    }
                    return Err(e);
                },
            }
        } else {
            None
        };
        proof {
            let ad = app_dir_spec(root@);
            let ab = app_backup_spec(root@, nonce);
            let vd = venv_dir_spec(root@);
            let vb = venv_backup_spec(root@, nonce);
            let post = *fs;
            assert forall|q: Seq<char>|
                !in_tree(ad, q) && !in_tree(ab, q) && !in_tree(vd, q) && !in_tree(
                    vb,
                    q,
                ) implies post.same_at(pre, q) by {
                assert(mid.same_at(pre, q));
                assert(post.same_at(mid, q));
            }
            assert forall|p: Seq<char>| #[trigger] in_tree(ad, p) implies !post.has_file(p)
                && !post.has_dir(p) && post.has_file(rebase(ad, ab, p)) == pre.has_file(p) && (
            pre.has_file(p) ==> post.file_data(rebase(ad, ab, p)) == pre.file_data(p)
                && post.file_stamp(rebase(ad, ab, p)) == pre.file_stamp(p)) && post.has_dir(
                rebase(ad, ab, p),
            ) == pre.has_dir(p) by {
                lemma_rebase_roundtrip(ad, ab, p);
                let rp = rebase(ad, ab, p);
                lemma_trees_disjoint(ad, vd, p);
                lemma_trees_disjoint(ab, vd, p);
                lemma_trees_disjoint(ad, vb, rp);
                lemma_trees_disjoint(ab, vb, rp);
                lemma_trees_disjoint(ad, ab, rp);
                lemma_trees_disjoint(ad, vb, p);
                lemma_trees_disjoint(ab, vd, rp);
                assert(post.same_at(mid, p));
                assert(post.same_at(mid, rp));
                if app_backup is Some {
                } else {
                    assert(!pre.node_exists(p));
                    assert(!pre.node_exists(rp));
                    assert(mid.same_at(pre, p) && mid.same_at(pre, rp));
                }
            }
            assert forall|p: Seq<char>| #[trigger] in_tree(vd, p) implies !post.has_file(p)
                && !post.has_dir(p) && post.has_file(rebase(vd, vb, p)) == pre.has_file(p) && (
            pre.has_file(p) ==> post.file_data(rebase(vd, vb, p)) == pre.file_data(p)
                && post.file_stamp(rebase(vd, vb, p)) == pre.file_stamp(p)) && post.has_dir(
                rebase(vd, vb, p),
            ) == pre.has_dir(p) by {
                lemma_rebase_roundtrip(vd, vb, p);
                let rp = rebase(vd, vb, p);
                lemma_trees_disjoint(ad, vd, p);
                lemma_trees_disjoint(ab, vd, p);
                lemma_trees_disjoint(ad, vb, rp);
                lemma_trees_disjoint(ab, vb, rp);
                lemma_trees_disjoint(vd, vb, rp);
                assert(mid.same_at(pre, p));
                assert(mid.same_at(pre, rp));
                if venv_backup is Some {
                } else {
                    assert(!mid.node_exists(p));
                    assert(!pre.node_exists(rp));
                    assert(post.same_at(mid, p) && post.same_at(mid, rp));
                }
            }
        }
        Ok(UpgradeBackup { app_backup, venv_backup })
    }
}

/// Tree membership is transitive.
pub proof fn lemma_in_tree_trans(a: Seq<char>, b: Seq<char>, q: Seq<char>)
    requires
        in_tree(a, b),
        in_tree(b, q),
    ensures
        in_tree(a, q),
{
    if b == a || q == b {
    } else {
        assert(q.subrange(0, a.len() as int) =~= a) by {
            assert forall|k: int| 0 <= k < a.len() implies q.subrange(0, a.len() as int)[k]
                == a[k] by {
                assert(q[k] == q.subrange(0, b.len() as int)[k]);
                assert(b[k] == b.subrange(0, a.len() as int)[k]);
            }
        }
        assert(a.len() < b.len() <= q.len());
        assert(q[a.len() as int] == q.subrange(0, b.len() as int)[a.len() as int]);
        assert(q[a.len() as int] == b[a.len() as int]);
        assert(b[a.len() as int] == '\\');
    }
}

/// Everything joined under a root lies in its tree.
pub proof fn lemma_joined_under(root: Seq<char>, x: Seq<char>)
    ensures
        in_tree(root, joined(root, x)),
{
    let q = joined(root, x);
    assert(q.subrange(0, root.len() as int) =~= root);
    assert(q[root.len() as int] == '\\');
}

/// Extending a path below a root keeps it in the tree.
pub proof fn lemma_ext_in_tree(root: Seq<char>, q: Seq<char>, ext: Seq<char>)
    requires
        in_tree(root, q),
        q.len() > root.len(),
    ensures
        in_tree(root, q + ext),
{
    let q2 = q + ext;
    assert(q2.subrange(0, root.len() as int) =~= q.subrange(0, root.len() as int));
    assert(q2[root.len() as int] == q[root.len() as int]);
}

impl UpgradeBackup {
    /// Puts the parked trees back: any partial new state at the
    /// original locations is removed first, so the pre-upgrade payload
    /// and environment reappear exactly.
    pub fn restore(fs: &mut Fs, root: &str, nonce: u64, b: &UpgradeBackup)
        requires
            old(fs).inv(),
            b.app_backup matches Some(p) ==> p@ == app_backup_spec(root@, nonce),
            b.venv_backup matches Some(p) ==> p@ == venv_backup_spec(root@, nonce),
            !in_tree(app_dir_spec(root@), app_backup_spec(root@, nonce)),
            !in_tree(app_backup_spec(root@, nonce), app_dir_spec(root@)),
            !in_tree(venv_dir_spec(root@), venv_backup_spec(root@, nonce)),
            !in_tree(venv_backup_spec(root@, nonce), venv_dir_spec(root@)),
            !in_tree(app_backup_spec(root@, nonce), venv_dir_spec(root@)),
            !in_tree(venv_dir_spec(root@), app_backup_spec(root@, nonce)),
            !in_tree(venv_backup_spec(root@, nonce), app_backup_spec(root@, nonce)),
            !in_tree(app_backup_spec(root@, nonce), venv_backup_spec(root@, nonce)),
            !in_tree(app_dir_spec(root@), venv_backup_spec(root@, nonce)),
            !in_tree(venv_backup_spec(root@, nonce), app_dir_spec(root@)),
            !in_tree(app_dir_spec(root@), venv_dir_spec(root@)),
            !in_tree(venv_dir_spec(root@), app_dir_spec(root@)),
        ensures
            final(fs).inv(),
            forall|q: Seq<char>|
                !in_tree(app_dir_spec(root@), q) && !in_tree(app_backup_spec(root@, nonce), q)
                    && !in_tree(venv_dir_spec(root@), q) && !in_tree(
                    venv_backup_spec(root@, nonce),
                    q,
                ) ==> final(fs).same_at(*old(fs), q),
            b.app_backup is Some ==> forall|p: Seq<char>|
                #[trigger] in_tree(app_dir_spec(root@), p) ==> final(fs).has_file(p) == old(fs).has_file(rebase(app_dir_spec(root@), app_backup_spec(root@, nonce), p)) && (final(fs).has_file(p) ==> final(fs).file_data(p) == old(fs).file_data(
                    rebase(app_dir_spec(root@), app_backup_spec(root@, nonce), p),
                ) && final(fs).file_stamp(p) == old(fs).file_stamp(
                    rebase(app_dir_spec(root@), app_backup_spec(root@, nonce), p),
                )) && final(fs).has_dir(p) == old(fs).has_dir(
                    rebase(app_dir_spec(root@), app_backup_spec(root@, nonce), p),
                ),
            b.venv_backup is Some ==> forall|p: Seq<char>|
                #[trigger] in_tree(venv_dir_spec(root@), p) ==> final(fs).has_file(p) == old(fs).has_file(rebase(venv_dir_spec(root@), venv_backup_spec(root@, nonce), p)) && (
                final(fs).has_file(p) ==> final(fs).file_data(p) == old(fs).file_data(
                    rebase(venv_dir_spec(root@), venv_backup_spec(root@, nonce), p),
                ) && final(fs).file_stamp(p) == old(fs).file_stamp(
                    rebase(venv_dir_spec(root@), venv_backup_spec(root@, nonce), p),
                )) && final(fs).has_dir(p) == old(fs).has_dir(
                    rebase(venv_dir_spec(root@), venv_backup_spec(root@, nonce), p),
                ),
            b.app_backup is None ==> forall|p: Seq<char>|
                #[trigger] in_tree(app_dir_spec(root@), p) ==> final(fs).same_at(*old(fs), p),
            b.venv_backup is None ==> forall|p: Seq<char>|
                #[trigger] in_tree(venv_dir_spec(root@), p) ==> final(fs).same_at(*old(fs), p),
    {
        let ghost pre = *fs;
        let ghost ad = app_dir_spec(root@);
        let ghost ab = app_backup_spec(root@, nonce);
        let ghost vd = venv_dir_spec(root@);
        let ghost vb = venv_backup_spec(root@, nonce);
        let app_dir = crate::paths::app_dir(root);
        let rt = crate::paths::runtime_dir(root);
        let venv_dir = crate::paths::join(rt.as_str(), "venv");
        match &b.app_backup {
            Some(bak) => {
                fs.remove_tree(app_dir.as_str());
                let ghost s1 = *fs;
                match fs.rename_tree(bak.as_str(), app_dir.as_str()) {
                    Ok(()) => {},
                    Err(_) => {
                        proof {
                            assert(false);
                        }
                    },
                }
                proof {
                    assert forall|p: Seq<char>| #[trigger] in_tree(ad, p) implies fs.has_file(p)
                        == pre.has_file(rebase(ad, ab, p)) && (fs.has_file(p) ==> fs.file_data(p)
                        == pre.file_data(rebase(ad, ab, p)) && fs.file_stamp(p) == pre.file_stamp(
                        rebase(ad, ab, p),
                    )) && fs.has_dir(p) == pre.has_dir(rebase(ad, ab, p)) by {
                        lemma_rebase_roundtrip(ad, ab, p);
                        let rp = rebase(ad, ab, p);
                        lemma_trees_disjoint(ad, ab, rp);
                        assert(s1.has_file(rp) == pre.has_file(rp));
                        assert(s1.has_dir(rp) == pre.has_dir(rp));
                    }
                }
            },
            None => {},
        }
        let ghost mid = *fs;
        match &b.venv_backup {
            Some(bak) => {
                fs.remove_tree(venv_dir.as_str());
                let ghost s1 = *fs;
                match fs.rename_tree(bak.as_str(), venv_dir.as_str()) {
                    Ok(()) => {},
                    Err(_) => {
                        proof {
                            assert(false);
                        }
                    },
                }
                proof {
                    assert forall|p: Seq<char>| #[trigger] in_tree(vd, p) implies fs.has_file(p)
                        == mid.has_file(rebase(vd, vb, p)) && (fs.has_file(p) ==> fs.file_data(p)
                        == mid.file_data(rebase(vd, vb, p)) && fs.file_stamp(p) == mid.file_stamp(
                        rebase(vd, vb, p),
                    )) && fs.has_dir(p) == mid.has_dir(rebase(vd, vb, p)) by {
                        lemma_rebase_roundtrip(vd, vb, p);
                        let rp = rebase(vd, vb, p);
                        lemma_trees_disjoint(vd, vb, rp);
                        assert(s1.has_file(rp) == mid.has_file(rp));
                        assert(s1.has_dir(rp) == mid.has_dir(rp));
                    }
                }
            },
            None => {},
        }
        proof {
            let post = *fs;
            assert forall|q: Seq<char>|
                !in_tree(ad, q) && !in_tree(ab, q) && !in_tree(vd, q) && !in_tree(
                    vb,
                    q,
                ) implies post.same_at(pre, q) by {
                assert(mid.same_at(pre, q));
                assert(post.same_at(mid, q));
            }
            if b.app_backup is Some {
                assert forall|p: Seq<char>| #[trigger] in_tree(ad, p) implies post.has_file(p)
                    == pre.has_file(rebase(ad, ab, p)) && (post.has_file(p) ==> post.file_data(p)
                    == pre.file_data(rebase(ad, ab, p)) && post.file_stamp(p) == pre.file_stamp(
                    rebase(ad, ab, p),
                )) && post.has_dir(p) == pre.has_dir(rebase(ad, ab, p)) by {
                    lemma_rebase_roundtrip(ad, ab, p);
                    let rp = rebase(ad, ab, p);
                    lemma_trees_disjoint(ad, vd, p);
                    lemma_trees_disjoint(ad, vb, p);
                    assert(mid.has_file(p) == pre.has_file(rp));
                    assert(mid.has_file(p) ==> mid.file_data(p) == pre.file_data(rp)
                        && mid.file_stamp(p) == pre.file_stamp(rp));
                    assert(mid.has_dir(p) == pre.has_dir(rp));
                    assert(post.same_at(mid, p));
                }
            } else {
                assert forall|p: Seq<char>| #[trigger] in_tree(ad, p) implies post.same_at(
                    pre,
                    p,
                ) by {
                    lemma_trees_disjoint(ad, vd, p);
                    lemma_trees_disjoint(ad, vb, p);
                    assert(post.same_at(mid, p));
                }
            }
            if b.venv_backup is Some {
                assert forall|p: Seq<char>| #[trigger] in_tree(vd, p) implies post.has_file(p)
                    == pre.has_file(rebase(vd, vb, p)) && (post.has_file(p) ==> post.file_data(p)
                    == pre.file_data(rebase(vd, vb, p)) && post.file_stamp(p) == pre.file_stamp(
                    rebase(vd, vb, p),
                )) && post.has_dir(p) == pre.has_dir(rebase(vd, vb, p)) by {
                    lemma_rebase_roundtrip(vd, vb, p);
                    let rp = rebase(vd, vb, p);
                    lemma_trees_disjoint(ad, vd, rp);
                    lemma_trees_disjoint(ab, vd, rp);
                    lemma_trees_disjoint(ad, vb, rp);
                    lemma_trees_disjoint(ab, vb, rp);
                    assert(mid.same_at(pre, rp));
                    assert(post.has_file(p) == mid.has_file(rp));
                }
            } else {
                assert forall|p: Seq<char>| #[trigger] in_tree(vd, p) implies post.same_at(
                    pre,
                    p,
                ) by {
                    lemma_trees_disjoint(ad, vd, p);
                    lemma_trees_disjoint(ab, vd, p);
                    assert(mid.same_at(pre, p));
                    assert(post.same_at(mid, p));
                }
            }
        }
    }

    /// Deletes the parked trees after a successful transaction.
    pub fn cleanup(fs: &mut Fs, root: &str, nonce: u64, b: &UpgradeBackup)
        requires
            old(fs).inv(),
            b.app_backup matches Some(p) ==> p@ == app_backup_spec(root@, nonce),
            b.venv_backup matches Some(p) ==> p@ == venv_backup_spec(root@, nonce),
        ensures
            final(fs).inv(),
            b.app_backup is Some ==> !final(fs).tree_used(app_backup_spec(root@, nonce)),
            b.venv_backup is Some ==> !final(fs).tree_used(venv_backup_spec(root@, nonce)),
            forall|q: Seq<char>|
                !in_tree(app_backup_spec(root@, nonce), q) && !in_tree(
                    venv_backup_spec(root@, nonce),
                    q,
                ) ==> final(fs).same_at(*old(fs), q),
    {
        let ghost pre = *fs;
        match &b.app_backup {
            Some(bak) => {
                fs.remove_tree(bak.as_str());
            },
            None => {},
        }
        let ghost mid = *fs;
        match &b.venv_backup {
            Some(bak) => {
                fs.remove_tree(bak.as_str());
            },
            None => {},
        }
        proof {
            let ab = app_backup_spec(root@, nonce);
            let vb = venv_backup_spec(root@, nonce);
            assert forall|q: Seq<char>|
                !in_tree(ab, q) && !in_tree(vb, q) implies fs.same_at(pre, q) by {
                assert(mid.same_at(pre, q));
                assert(fs.same_at(mid, q));
            }
            if b.app_backup is Some {
                assert forall|p: Seq<char>|
                    #[trigger] in_tree(ab, p) implies !fs.node_exists(p) by {
                    if b.venv_backup is Some {
                        if in_tree(vb, p) {
                        } else {
                            assert(fs.same_at(mid, p));
                        }
                    } else {
                        assert(fs.same_at(mid, p) || true);
                    }
                }
            }
        }
    }
}
/// The fixed set of runtime working directories.
pub fn ensure_runtime_dirs(fs: &mut Fs, runtime: &str)
    requires
        old(fs).inv(),
    ensures
        final(fs).inv(),
        final(fs).has_dir(joined(runtime@, "venv"@)),
        final(fs).has_dir(joined(runtime@, "cache"@)),
        final(fs).has_dir(joined(runtime@, "logs"@)),
        forall|q: Seq<char>| final(fs).has_file(q) == old(fs).has_file(q),
        forall|q: Seq<char>|
            old(fs).has_file(q) ==> final(fs).file_data(q) == old(fs).file_data(q) && final(fs).file_stamp(q) == old(fs).file_stamp(q),
        forall|q: Seq<char>| old(fs).has_dir(q) ==> final(fs).has_dir(q),
        forall|q: Seq<char>|
            final(fs).has_dir(q) ==> old(fs).has_dir(q) || q == joined(runtime@, "cache"@) || q
                == joined(runtime@, "python"@) || q == joined(runtime@, "python-bin"@) || q
                == joined(runtime@, "tools"@) || q == joined(runtime@, "tool-bin"@) || q == joined(
                runtime@,
                "venv"@,
            ) || q == joined(runtime@, "logs"@),
{
    let d1 = crate::paths::join(runtime, "cache");
    fs.create_dir(d1.as_str());
    let d2 = crate::paths::join(runtime, "python");
    fs.create_dir(d2.as_str());
    let d3 = crate::paths::join(runtime, "python-bin");
    fs.create_dir(d3.as_str());
    let d4 = crate::paths::join(runtime, "tools");
    fs.create_dir(d4.as_str());
    let d5 = crate::paths::join(runtime, "tool-bin");
    fs.create_dir(d5.as_str());
    let d6 = crate::paths::join(runtime, "venv");
    fs.create_dir(d6.as_str());
    let d7 = crate::paths::join(runtime, "logs");
    fs.create_dir(d7.as_str());
}

/// Scans the payload tree's immediate subdirectories for the first
/// one holding a project manifest; none is fatal.
pub fn find_project(fs: &Fs, root: &str) -> (r: Result<String, LibError>)
    requires
        fs.inv(),
    ensures
        r matches Ok(p) ==> fs.has_dir(p@) && crate::fs::immediate_child(app_dir_spec(root@), p@)
            && fs.has_file(joined(p@, "pyproject.toml"@)),
        r is Err ==> r == Result::<String, LibError>::Err(LibError::NoProject) && (forall|
            d: Seq<char>,
        |
            fs.has_dir(d) && crate::fs::immediate_child(app_dir_spec(root@), d) ==> !fs.has_file(
                joined(d, "pyproject.toml"@),
            )),
{
    let app_dir = crate::paths::app_dir(root);
    let dirs = fs.subdirs(app_dir.as_str());
    let n = dirs.len();
    let mut i: usize = 0;
    while i < n
        invariant
            fs.inv(),
            i <= n,
            n == dirs@.len(),
            forall|k: int|
                0 <= k < n ==> fs.has_dir((#[trigger] dirs@[k])@) && crate::fs::immediate_child(
                    app_dir_spec(root@),
                    dirs@[k]@,
                ),
            forall|d: Seq<char>|
                fs.has_dir(d) && crate::fs::immediate_child(app_dir_spec(root@), d) ==> exists|
                    k: int,
                |
                    0 <= k < n && (#[trigger] dirs@[k])@ == d,
            forall|k: int|
                0 <= k < i ==> !fs.has_file(joined((#[trigger] dirs@[k])@, "pyproject.toml"@)),
        decreases n - i,
    {
        let cand = crate::paths::join(dirs[i].as_str(), "pyproject.toml");
        if fs.file_exists(cand.as_str()) {
            let d = dirs[i].clone();
            proof {
                assert(d@ == dirs@[i as int]@);
            }
            return Ok(d);
        }
        i += 1;
    }
    proof {
        assert forall|d: Seq<char>|
            fs.has_dir(d) && crate::fs::immediate_child(app_dir_spec(root@), d) implies !fs.has_file(
            joined(d, "pyproject.toml"@),
        ) by {
            let k = choose|k: int| 0 <= k < n && (#[trigger] dirs@[k])@ == d;
            assert(!fs.has_file(joined(dirs@[k]@, "pyproject.toml"@)));
        }
    }
    Err(LibError::NoProject)
}

/// An icon file name: its lower-cased form ends in the icon suffix.
pub open spec fn is_ico_name(p: Seq<char>) -> bool {
    crate::payload::ends_with_spec(crate::strutil::lower_spec(p), ".ico"@)
}

/// Resolves the optional icon: an absolute configured path that
/// exists, else the configured name under the install root, else the
/// first icon file directly in the root's assets directory, in
/// lexicographic order.
pub fn resolve_icon_path(fs: &Fs, root: &str, icon_cfg: &str) -> (r: Option<String>)
    requires
        fs.inv(),
    ensures
        ({
            let t = trim_spec(icon_cfg@);
            let assets = joined(root@, "assets"@);
            if t.len() == 0 {
                match r {
                    Some(p) => fs.has_file(p@) && crate::fs::immediate_child(assets, p@)
                        && is_ico_name(p@) && (forall|q: Seq<char>|
                        fs.has_file(q) && crate::fs::immediate_child(assets, q) && is_ico_name(q)
                            ==> crate::strutil::lex_le(p@, q)),
                    None => forall|q: Seq<char>|
                        fs.has_file(q) && crate::fs::immediate_child(assets, q) ==> !is_ico_name(
                            q,
                        ),
                }
            } else if crate::paths::is_abs_spec(t) {
                (r matches Some(p) ==> p@ == t) && (r is Some <==> fs.has_file(t))
            } else {
                (r matches Some(p) ==> p@ == joined(root@, t)) && (r is Some <==> fs.has_file(
                    joined(root@, t),
                ))
            }
        }),
{
    let icon = trim(icon_cfg);
    if icon.unicode_len() == 0 {
        // no icon configured: fall back to the assets directory
        proof {
            reveal_strlit(".ico");
        }
        let assets = crate::paths::join(root, "assets");
        let entries = fs.entries();
        let n = entries.len();
        let mut best: Option<String> = None;
        let mut k: usize = 0;
        while k < n
            invariant
                fs.inv(),
                k <= n,
                n == entries@.len(),
                forall|j: int|
                    0 <= j < entries@.len() ==> fs.has_file((#[trigger] entries@[j]).0@),
                forall|q: Seq<char>|
                    fs.has_file(q) && crate::fs::immediate_child(joined(root@, "assets"@), q)
                        ==> exists|j: int| 0 <= j < entries@.len() && (#[trigger] entries@[j]).0@ == q,
                assets@ == joined(root@, "assets"@),
                best matches Some(b) ==> fs.has_file(b@) && crate::fs::immediate_child(
                    joined(root@, "assets"@),
                    b@,
                ) && is_ico_name(b@),
                best matches Some(b) ==> forall|j: int|
                    0 <= j < k && crate::fs::immediate_child(
                        joined(root@, "assets"@),
                        (#[trigger] entries@[j]).0@,
                    ) && is_ico_name(entries@[j].0@) ==> crate::strutil::lex_le(
                        b@,
                        entries@[j].0@,
                    ),
                best is None ==> forall|j: int|
                    0 <= j < k ==> !(crate::fs::immediate_child(
                        joined(root@, "assets"@),
                        (#[trigger] entries@[j]).0@,
                    ) && is_ico_name(entries@[j].0@)),
            decreases n - k,
        {
            let p = &entries[k].0;
            let lowered = crate::strutil::to_ascii_lower(p.as_str());
            let ghost prev = best;
            if crate::fs::immediate_child_check(assets.as_str(), p.as_str())
                && crate::payload::ends_with(lowered.as_str(), ".ico") {
                match &best {
                    None => {
                        best = Some(p.clone());
                    },
                    Some(b) => {
                        if crate::strutil::str_lt(p.as_str(), b.as_str()) {
                            best = Some(p.clone());
                            proof {
                                let bv = prev->Some_0@;
                                assert forall|j: int|
                                    0 <= j < k + 1 && crate::fs::immediate_child(
                                        joined(root@, "assets"@),
                                        (#[trigger] entries@[j]).0@,
                                    ) && is_ico_name(
                                        entries@[j].0@,
                                    ) implies crate::strutil::lex_le(p@, entries@[j].0@) by {
                                    if j < k {
                                        crate::strutil::lemma_lex_trans(p@, bv, entries@[j].0@);
                                    }
                                }
                            }
                        } else {
                            proof {
                                crate::strutil::lemma_lex_total(b@, p@);
                            }
                        }
                    },
                }
            }
            k += 1;
        }
        proof {
            if best is Some {
                let bv = best->Some_0@;
                assert forall|q: Seq<char>|
                    fs.has_file(q) && crate::fs::immediate_child(joined(root@, "assets"@), q)
                        && is_ico_name(q) implies crate::strutil::lex_le(bv, q) by {
                    let j = choose|j: int|
                        0 <= j < entries@.len() && (#[trigger] entries@[j]).0@ == q;
                }
            } else {
                assert forall|q: Seq<char>|
                    fs.has_file(q) && crate::fs::immediate_child(
                        joined(root@, "assets"@),
                        q,
                    ) implies !is_ico_name(q) by {
                    let j = choose|j: int|
                        0 <= j < entries@.len() && (#[trigger] entries@[j]).0@ == q;
                }
            }
        }
        return best;
    }
    if crate::paths::is_absolute_path(icon.as_str()) {
        if fs.file_exists(icon.as_str()) {
            return Some(icon);
        }
        return None;
    }
    let cand = crate::paths::join(root, icon.as_str());
    if fs.file_exists(cand.as_str()) {
        Some(cand)
    } else {
        None
    }
}

/// Whether the next run of the installer would upgrade rather than
/// just launch: there is a state record and its version is not the
/// running one.
pub fn detect_update_mode(fs: &Fs, root: &str, version: &str) -> (r: Result<bool, LibError>)
    requires
        fs.inv(),
    ensures
        !fs.has_file(state_path_spec(root@)) ==> r == Result::<bool, LibError>::Ok(false),
        fs.has_file(state_path_spec(root@)) ==> forall|c: Seq<char>|
            fs.file_data(state_path_spec(root@)) == crate::strutil::utf8_of(c)
                ==> match crate::state::spec_parse_state(c) {
                None => r == Result::<bool, LibError>::Err(LibError::StateCorrupt),
                Some(sv) => r == Result::<bool, LibError>::Ok(
                    crate::version::compare_spec(sv.launcher_version, version@)
                        != crate::version::VersionRelation::Same,
                ),
            },
{
    let sp = crate::paths::state_path(root);
    if !fs.file_exists(sp.as_str()) {
        return Ok(false);
    }
    let st = match crate::state::read_state(fs, sp.as_str()) {
        Ok(st) => st,
        Err(e) => {
            return Err(e);
        },
    };
    let rel = crate::version::compare_versions(st.launcher_version.as_str(), version);
    Ok(!matches!(rel, crate::version::VersionRelation::Same))
}

/// The tree shapes the transaction relies on: the payload, environment
/// and their nonce-tagged backups are four mutually disjoint trees
/// under the root.
pub proof fn lemma_engine_tree_shapes(root: Seq<char>, nonce: u64)
    ensures
        !in_tree(app_dir_spec(root), app_backup_spec(root, nonce)),
        !in_tree(app_backup_spec(root, nonce), app_dir_spec(root)),
        !in_tree(venv_dir_spec(root), venv_backup_spec(root, nonce)),
        !in_tree(venv_backup_spec(root, nonce), venv_dir_spec(root)),
        !in_tree(app_backup_spec(root, nonce), venv_dir_spec(root)),
        !in_tree(venv_dir_spec(root), app_backup_spec(root, nonce)),
        !in_tree(venv_backup_spec(root, nonce), app_backup_spec(root, nonce)),
        !in_tree(app_backup_spec(root, nonce), venv_backup_spec(root, nonce)),
        !in_tree(app_dir_spec(root), venv_backup_spec(root, nonce)),
        !in_tree(venv_backup_spec(root, nonce), app_dir_spec(root)),
        !in_tree(app_dir_spec(root), venv_dir_spec(root)),
        !in_tree(venv_dir_spec(root), app_dir_spec(root)),
        in_tree(root, app_dir_spec(root)),
        in_tree(root, app_backup_spec(root, nonce)),
        in_tree(root, venv_dir_spec(root)),
        in_tree(root, venv_backup_spec(root, nonce)),
{
    reveal_strlit("app");
    reveal_strlit(".runtime");
    reveal_strlit("app.backup.");
    reveal_strlit("venv.backup.");
    reveal_strlit("venv");
    crate::dec::lemma_dec_spec_digits(nonce as nat);
    let a = "app"@;
    let ab = "app.backup."@ + dec_spec(nonce as nat);
    let vb = "venv.backup."@ + dec_spec(nonce as nat);
    let rtv = ".runtime"@ + seq!['\\'] + "venv"@;
    assert(venv_dir_spec(root) =~= joined(root, rtv));
    lemma_joined_under(root, a);
    lemma_joined_under(root, ab);
    lemma_joined_under(root, vb);
    lemma_joined_under(root, rtv);
    assert(venv_dir_spec(root) == joined(root, rtv));
    // name-level disjointness, by first characters and lengths
    assert(a[0] == 'a' && ab[0] == 'a' && vb[0] == 'v' && rtv[0] == '.');
    assert(ab[3] == '.');
    assert(crate::dec::is_digit(ab[11]));
    assert(crate::dec::is_digit(vb[12]));
    lemma_name_disjoint(a, ab);
    lemma_name_disjoint(a, vb);
    lemma_name_disjoint(a, rtv);
    lemma_name_disjoint(ab, vb);
    lemma_name_disjoint(ab, rtv);
    lemma_name_disjoint(vb, rtv);
    lemma_joined_in_tree(root, a, ab);
    lemma_joined_in_tree(root, ab, a);
    lemma_joined_in_tree(root, a, vb);
    lemma_joined_in_tree(root, vb, a);
    lemma_joined_in_tree(root, a, rtv);
    lemma_joined_in_tree(root, rtv, a);
    lemma_joined_in_tree(root, ab, vb);
    lemma_joined_in_tree(root, vb, ab);
    lemma_joined_in_tree(root, ab, rtv);
    lemma_joined_in_tree(root, rtv, ab);
    lemma_joined_in_tree(root, vb, rtv);
    lemma_joined_in_tree(root, rtv, vb);
}

/// Names neither of which, extended by a separator, prefixes the other
/// head no common tree.
proof fn lemma_name_disjoint(x: Seq<char>, y: Seq<char>)
    requires
        x != y,
        x.len() > y.len() ==> !(x.subrange(0, y.len() as int) == y && x[y.len() as int] == '\\'),
        y.len() > x.len() ==> !(y.subrange(0, x.len() as int) == x && y[x.len() as int] == '\\'),
    ensures
        !in_tree(x, y),
        !in_tree(y, x),
{
}
/// Where the first line of a text ends: at the first newline from
/// position `i` on, or at the end.
pub open spec fn line_end(s: Seq<char>, i: int) -> int
    decreases s.len() - i,
{
    if i < 0 || i >= s.len() {
        s.len() as int
    } else if s[i] == '\n' {
        i
    } else {
        line_end(s, i + 1)
    }
}

proof fn lemma_line_end_at(s: Seq<char>, e: int, i: int)
    requires
        0 <= i <= e <= s.len(),
        forall|k: int| i <= k < e ==> s[k] != '\n',
        e == s.len() || s[e] == '\n',
    ensures
        line_end(s, i) == e,
    decreases e - i,
{
    if i < e {
        lemma_line_end_at(s, e, i + 1);
    }
}

/// The version pin a text's first line carries, trimmed; blank means
/// no pin.
pub open spec fn pin_of(d: Seq<char>) -> Seq<char> {
    trim_spec(d.subrange(0, line_end(d, 0)))
}

/// The optional interpreter version pin of the project.
pub fn read_python_version(fs: &Fs, proj: &str) -> (r: Result<Option<String>, LibError>)
    requires
        fs.inv(),
    ensures
        !fs.has_file(joined(proj@, ".python-version"@)) ==> r == Result::<
            Option<String>,
            LibError,
        >::Ok(None),
        // the pin file's first line decides the pin
        fs.has_file(joined(proj@, ".python-version"@)) ==> forall|d: Seq<char>|
            fs.file_data(joined(proj@, ".python-version"@)) == crate::strutil::utf8_of(d) ==> (
            if pin_of(d).len() == 0 {
                r == Result::<Option<String>, LibError>::Ok(None)
            } else {
                r matches Ok(Some(s)) && s@ == pin_of(d)
            }),
        r matches Err(e) ==> e is StateCorrupt,
{
    let vp = crate::paths::join(proj, ".python-version");
    let bytes = match fs.read_file(vp.as_str()) {
        Some(b) => b,
        None => {
            return Ok(None);
        },
    };
    let text = match crate::strutil::utf8_decode(bytes) {
        Some(t) => t,
        None => {
            return Err(LibError::StateCorrupt);
        },
    };
    // the first line only
    let n = text.as_str().unicode_len();
    let mut e: usize = 0;
    while e < n
        invariant
            e <= n,
            n == text@.len(),
            forall|k: int| 0 <= k < e ==> text@[k] != '\n',
        ensures
            e <= n,
            n == text@.len(),
            forall|k: int| 0 <= k < e ==> text@[k] != '\n',
            e == n || text@[e as int] == '\n',
        decreases n - e,
    {
        if text.as_str().get_char(e) == '\n' {
            break ;
        }
        e += 1;
    }
    proof {
        lemma_line_end_at(text@, e as int, 0);
    }
    let line = text.as_str().substring_char(0, e).to_owned();
    let v = trim(line.as_str());
    proof {
        assert(line@ == text@.subrange(0, e as int));
    }
    if v.unicode_len() == 0 {
        Ok(None)
    } else {
        Ok(Some(v))
    }
}

/// What one run of the engine did.
#[derive(Debug, Clone, Copy, PartialEq, Eq)]
pub struct RunReport {
    /// An install or upgrade ran (as opposed to launch-only).
    pub upgraded: bool,
    /// The previous payload tree existed and was parked.
    pub backed_up_app: bool,
    /// The previous environment tree existed and was parked.
    pub backed_up_venv: bool,
}

/// A head-character mismatch keeps a path out of a tree.
proof fn lemma_head_mismatch(t: Seq<char>, q: Seq<char>, k: int)
    requires
        0 <= k < t.len(),
        k < q.len(),
        t[k] != q[k],
    ensures
        !in_tree(t, q),
{
    if in_tree(t, q) {
        if q == t {
        } else {
            assert(q.subrange(0, t.len() as int)[k] == q[k]);
        }
    }
}

/// Whether the transaction's variable write targets stay clear of the
/// nonce-named parked trees: the launcher image destination (with its
/// temp sibling) and every payload entry; the fixed runtime, record,
/// cache and uninstaller paths always do.
pub open spec fn steps_avoid_backups(
    root: Seq<char>,
    app_name: Seq<char>,
    blob: Seq<u8>,
    nonce: u64,
) -> bool {
    let ab = app_backup_spec(root, nonce);
    let vb = venv_backup_spec(root, nonce);
    let dest = shim_dest_spec(root, app_name);
    let tmp = crate::fs_ops::temp_path_spec(dest, nonce);
    &&& !in_tree(ab, dest) && !in_tree(vb, dest)
    &&& !in_tree(ab, tmp) && !in_tree(vb, tmp)
    &&& forall|i: int|
        0 <= i < crate::payload::zip_count(blob) ==> !in_tree(
            ab,
            #[trigger] crate::payload::entry_dest(root, blob, i),
        ) && !in_tree(vb, crate::payload::entry_dest(root, blob, i))
}

/// Two filesystems agreeing at every path of both parked trees.
pub open spec fn parked_same(root: Seq<char>, nonce: u64, a: Fs, b: Fs) -> bool {
    &&& forall|q: Seq<char>|
        #[trigger] in_tree(app_backup_spec(root, nonce), q) ==> a.same_at(b, q)
    &&& forall|q: Seq<char>|
        #[trigger] in_tree(venv_backup_spec(root, nonce), q) ==> a.same_at(b, q)
}

proof fn parked_same_trans(root: Seq<char>, nonce: u64, a: Fs, b: Fs, c: Fs)
    requires
        parked_same(root, nonce, b, a),
        parked_same(root, nonce, c, b),
    ensures
        parked_same(root, nonce, c, a),
{
    assert forall|q: Seq<char>|
        #[trigger] in_tree(app_backup_spec(root, nonce), q) implies c.same_at(a, q) by {
        assert(b.same_at(a, q));
        assert(c.same_at(b, q));
    }
    assert forall|q: Seq<char>|
        #[trigger] in_tree(venv_backup_spec(root, nonce), q) implies c.same_at(a, q) by {
        assert(b.same_at(a, q));
        assert(c.same_at(b, q));
    }
}

/// A parked path never carries the runtime directory's name prefix,
/// the record, the cache or the uninstaller image.
proof fn lemma_backups_vs_fixed(root: Seq<char>, nonce: u64)
    ensures
        forall|w: Seq<char>|
            !in_tree(app_backup_spec(root, nonce), #[trigger] joined(
                joined(root, ".runtime"@),
                w,
            )) && !in_tree(venv_backup_spec(root, nonce), joined(joined(root, ".runtime"@), w)),
        !in_tree(app_backup_spec(root, nonce), joined(root, ".runtime"@)),
        !in_tree(venv_backup_spec(root, nonce), joined(root, ".runtime"@)),
        !in_tree(joined(joined(root, ".runtime"@), "cache"@), app_backup_spec(root, nonce)),
        !in_tree(joined(joined(root, ".runtime"@), "cache"@), venv_backup_spec(root, nonce)),
        !in_tree(app_backup_spec(root, nonce), joined(root, "uninstaller.exe"@)),
        !in_tree(venv_backup_spec(root, nonce), joined(root, "uninstaller.exe"@)),
        !in_tree(app_backup_spec(root, nonce), state_path_spec(root)),
        !in_tree(venv_backup_spec(root, nonce), state_path_spec(root)),
{
    reveal_strlit("app.backup.");
    reveal_strlit("venv.backup.");
    reveal_strlit(".runtime");
    reveal_strlit("uninstaller.exe");
    reveal_strlit("cache");
    crate::dec::lemma_dec_spec_digits(nonce as nat);
    let ab = app_backup_spec(root, nonce);
    let vb = venv_backup_spec(root, nonce);
    let rt = joined(root, ".runtime"@);
    let k = root.len() as int + 1;
    assert(ab[k] == 'a' && vb[k] == 'v' && rt[k] == '.');
    assert forall|w: Seq<char>|
        !in_tree(ab, #[trigger] joined(joined(root, ".runtime"@), w)) && !in_tree(
            vb,
            joined(joined(root, ".runtime"@), w),
        ) by {
        let q = joined(rt, w);
        assert(q[k] == '.');
        lemma_head_mismatch(ab, q, k);
        lemma_head_mismatch(vb, q, k);
    }
    lemma_head_mismatch(ab, rt, k);
    lemma_head_mismatch(vb, rt, k);
    let cache = joined(rt, "cache"@);
    assert(cache[k] == '.');
    lemma_head_mismatch(cache, ab, k);
    lemma_head_mismatch(cache, vb, k);
    let un = joined(root, "uninstaller.exe"@);
    assert(un[k] == 'u');
    lemma_head_mismatch(ab, un, k);
    lemma_head_mismatch(vb, un, k);
    let x = ".runtime"@ + seq!['\\'] + "state.json"@;
    assert(state_path_spec(root) =~= joined(root, x));
    assert(state_path_spec(root)[k] == '.');
    lemma_head_mismatch(ab, state_path_spec(root), k);
    lemma_head_mismatch(vb, state_path_spec(root), k);
}

/// The parked roots end in the nonce's digits, never in the
/// executable suffix.
proof fn lemma_backup_roots_not_exe(root: Seq<char>, nonce: u64)
    ensures
        !crate::payload::ends_with_spec(app_backup_spec(root, nonce), ".exe"@),
        !crate::payload::ends_with_spec(venv_backup_spec(root, nonce), ".exe"@),
{
    reveal_strlit(".exe");
    reveal_strlit("app.backup.");
    reveal_strlit("venv.backup.");
    crate::dec::lemma_dec_spec_digits(nonce as nat);
    let d = dec_spec(nonce as nat);
    let ab = app_backup_spec(root, nonce);
    let vb = venv_backup_spec(root, nonce);
    assert(ab[ab.len() - 1] == d[d.len() - 1]);
    assert(vb[vb.len() - 1] == d[d.len() - 1]);
    assert(crate::dec::is_digit(d[d.len() - 1]));
    if crate::payload::ends_with_spec(ab, ".exe"@) {
        assert(ab.subrange(ab.len() - 4, ab.len() as int)[3] == 'e');
    }
    if crate::payload::ends_with_spec(vb, ".exe"@) {
        assert(vb.subrange(vb.len() - 4, vb.len() as int)[3] == 'e');
    }
}

/// A run in which nothing outside the engine's control goes wrong:
/// every planned command exits cleanly, the hand-off spawn goes
/// through, no transient file fault is pending, the image, payload
/// and runtime archive are well formed, the payload carries a project
/// manifest under `app\dn` outside the user-data tree, no version pin
/// is in play, and a non-blank module entry point is configured. Under
/// these the transaction owes success.
pub open spec fn smooth_install(
    fsv: Fs,
    plan: Seq<Option<i32>>,
    spawns: Seq<bool>,
    fetches: Seq<Option<Seq<u8>>>,
    faults: crate::fs_ops::FaultPlan,
    root: Seq<char>,
    app_name: Seq<char>,
    entry_cfg: Seq<char>,
    image: Seq<u8>,
    blob: Seq<u8>,
    arch: Seq<char>,
    dn: Seq<char>,
) -> bool {
    let pd = joined(app_dir_spec(root), dn);
    &&& image.len() > 0
    &&& app_name.len() > 0
    &&& crate::paths::valid_file_dest(shim_dest_spec(root, app_name))
    &&& faults.fail_next == 0
    &&& forall|k: int| 0 <= k < plan.len() ==> plan[k] == Some(0i32)
    &&& spawns.len() > 0 && spawns[0]
    &&& crate::payload::payload_wf(blob)
    &&& (arch == "x86_64"@ || arch == "aarch64"@)
    &&& (fetches[0] matches Some(bb) && crate::uv::uv_zip_wf(bb) && crate::uv::uv_primary_present(
        root,
        bb,
    ))
    &&& dn.len() > 0
    &&& (forall|k: int| 0 <= k < dn.len() ==> dn[k] != '\\' && dn[k] != '/')
    &&& (exists|i: int|
        crate::payload::file_entry(blob, i) && #[trigger] crate::payload::entry_dest(root, blob, i)
            == joined(pd, "pyproject.toml"@))
    &&& !fsv.tree_used(app_dir_spec(root))
    &&& (forall|i: int|
        0 <= i < crate::payload::zip_count(blob) ==> !crate::payload::ends_with_spec(
            #[trigger] crate::payload::entry_dest(root, blob, i),
            ".python-version"@,
        ))
    &&& crate::strutil::starts_with_spec(trim_spec(entry_cfg), "module:"@)
    &&& trim_spec(trim_spec(entry_cfg).skip(7)).len() > 0
}

/// The fallible middle of the transaction: shim, payload, runtime,
/// dependency sync, shortcuts, state record and launch. Everything it
/// touches lies under the install root.
#[verifier::rlimit(100)]
fn install_steps<E: crate::ports::Executor, F: crate::ports::Fetcher>(
    fs: &mut Fs,
    ex: &mut E,
    fx: &mut F,
    faults: &mut crate::fs_ops::FaultPlan,
    cfg: &AppConfig,
    root: &str,
    app_name: &str,
    self_image: &Vec<u8>,
    payload_blob: &Vec<u8>,
    arch: &str,
    start_menu: &str,
    nonce: u64,
) -> (r: Result<crate::state::State, LibError>)
    requires
        old(fs).inv(),
        old(ex).plan().len() >= 12,
        old(ex).spawn_plan().len() >= 1,
        old(fx).fetch_plan().len() >= 1,
    ensures
        final(fs).inv(),
        forall|q: Seq<char>| !in_tree(root@, q) ==> final(fs).same_at(*old(fs), q),
        r matches Ok(st) ==> st@.launcher_version == cfg.version@ && st@.installed && final(fs).has_file(state_path_spec(root@)) && final(fs).file_data(state_path_spec(root@))
            == crate::strutil::utf8_of(crate::state::state_text(st@)),
        // an empty launcher image is the one reason this exact error comes
        self_image@.len() == 0 <==> r == Result::<crate::state::State, LibError>::Err(
            LibError::EmptyShim,
        ),
        // the version decision errors belong to the caller, never to the steps
        r matches Err(e) ==> !(e is Downgrade) && !(e is StateNotFound) && !(
        e is RenameTargetExists),
        old(fs).has_dir(root@) ==> final(fs).has_dir(root@),
        // the parked trees are never touched, as long as the image and
        // the payload entries stay clear of them
        steps_avoid_backups(root@, app_name@, payload_blob@, nonce) ==> parked_same(
            root@,
            nonce,
            *final(fs),
            *old(fs),
        ),
        // a completed transaction ends by handing off the installed
        // image itself
        r is Ok ==> final(ex).spawned() == old(ex).spawned().push(
            crate::ports::plain_cmd(shim_dest_spec(root@, app_name@)),
        ),
        // with benign plans and well-formed inputs, success is owed
        (exists|dn: Seq<char>|
            smooth_install(
                *old(fs),
                old(ex).plan(),
                old(ex).spawn_plan(),
                old(fx).fetch_plan(),
                *old(faults),
                root@,
                app_name@,
                cfg.entry_point@,
                self_image@,
                payload_blob@,
                arch@,
                dn,
            )) ==> r is Ok,
{
    let ghost rootv = root@;
    let ghost s0 = *fs;
    let ghost avoid = steps_avoid_backups(rootv, app_name@, payload_blob@, nonce);
    let ghost ab = app_backup_spec(rootv, nonce);
    let ghost vb = venv_backup_spec(rootv, nonce);
    let ghost smooth = exists|dn: Seq<char>|
        smooth_install(
            s0,
            old(ex).plan(),
            old(ex).spawn_plan(),
            old(fx).fetch_plan(),
            *old(faults),
            rootv,
            app_name@,
            cfg.entry_point@,
            self_image@,
            payload_blob@,
            arch@,
            dn,
        );
    let ghost dnw: Seq<char> = if smooth {
        choose|dn: Seq<char>|
            smooth_install(
                s0,
                old(ex).plan(),
                old(ex).spawn_plan(),
                old(fx).fetch_plan(),
                *old(faults),
                rootv,
                app_name@,
                cfg.entry_point@,
                self_image@,
                payload_blob@,
                arch@,
                dn,
            )
    } else {
        Seq::empty()
    };
    if self_image.len() == 0 {
        return Err(LibError::EmptyShim);
    }
    let dest_exe = shim_dest(root, app_name);
    match crate::fs_ops::write_bytes_with_retry(fs, faults, nonce, dest_exe.as_str(), self_image, 5) {
        Ok(()) => {},
        Err(e) => {
            proof {
                frame_hop_shim(rootv, app_name@ + ".exe"@, dest_exe@, nonce, s0, *fs);
                if smooth {
                    assert(smooth_install(s0, old(ex).plan(), old(ex).spawn_plan(), old(fx).fetch_plan(), *old(faults), rootv, app_name@, cfg.entry_point@, self_image@, payload_blob@, arch@, dnw));
                    assert(false);
                }
            }
            return Err(e);
        },
    }
    proof {
        frame_hop_shim(rootv, app_name@ + ".exe"@, dest_exe@, nonce, s0, *fs);
        assert(fs.has_dir(rootv) == s0.has_dir(rootv));
        if avoid {
            assert forall|q: Seq<char>| #[trigger] in_tree(ab, q) implies fs.same_at(s0, q) by {
                assert(q != dest_exe@ && q != crate::fs_ops::temp_path_spec(dest_exe@, nonce));
            }
            assert forall|q: Seq<char>| #[trigger] in_tree(vb, q) implies fs.same_at(s0, q) by {
                assert(q != dest_exe@ && q != crate::fs_ops::temp_path_spec(dest_exe@, nonce));
            }
            assert(parked_same(rootv, nonce, *fs, s0));
        }
    }
    let ghost s1 = *fs;
    let opts = crate::payload::PayloadOptions { skip_existing_data: true };
    let pr = crate::payload::install_payload_with_options(fs, root, payload_blob, opts);
    proof {
        frame_hop_payload(rootv, payload_blob@, s1, *fs);
        frame_chain(rootv, s0, s1, *fs);
        assert(s0.has_dir(rootv) ==> fs.has_dir(rootv));
        if avoid {
            assert forall|q: Seq<char>| #[trigger] in_tree(ab, q) implies fs.same_at(s1, q) by {
                assert forall|i: int|
                    crate::payload::file_entry(payload_blob@, i) implies crate::payload::entry_dest(
                    rootv,
                    payload_blob@,
                    i,
                ) != q by {}
                if fs.has_dir(q) && !s1.has_dir(q) {
                    assert(crate::payload::entry_dir(payload_blob@, rootv, q));
                    let i = choose|i: int|
                        0 <= i < crate::payload::zip_count(payload_blob@) && #[trigger] in_tree(
                            q,
                            crate::payload::entry_dest(rootv, payload_blob@, i),
                        );
                    if in_tree(ab, q) {
                        lemma_in_tree_trans(ab, q, crate::payload::entry_dest(rootv, payload_blob@, i));
                    } else {
                        lemma_in_tree_trans(vb, q, crate::payload::entry_dest(rootv, payload_blob@, i));
                    }
                }
            }
            assert forall|q: Seq<char>| #[trigger] in_tree(vb, q) implies fs.same_at(s1, q) by {
                assert forall|i: int|
                    crate::payload::file_entry(payload_blob@, i) implies crate::payload::entry_dest(
                    rootv,
                    payload_blob@,
                    i,
                ) != q by {}
                if fs.has_dir(q) && !s1.has_dir(q) {
                    assert(crate::payload::entry_dir(payload_blob@, rootv, q));
                    let i = choose|i: int|
                        0 <= i < crate::payload::zip_count(payload_blob@) && #[trigger] in_tree(
                            q,
                            crate::payload::entry_dest(rootv, payload_blob@, i),
                        );
                    if in_tree(ab, q) {
                        lemma_in_tree_trans(ab, q, crate::payload::entry_dest(rootv, payload_blob@, i));
                    } else {
                        lemma_in_tree_trans(vb, q, crate::payload::entry_dest(rootv, payload_blob@, i));
                    }
                }
            }
            parked_same_trans(rootv, nonce, s0, s1, *fs);
        
        }
    }
    match pr {
        Ok(()) => {},
        Err(e) => {
            proof {
                if smooth {
                    assert(smooth_install(s0, old(ex).plan(), old(ex).spawn_plan(), old(fx).fetch_plan(), *old(faults), rootv, app_name@, cfg.entry_point@, self_image@, payload_blob@, arch@, dnw));
                    assert(false);
                }
            }
            return Err(e);
        },
    }
    let ghost s2 = *fs;
    let icon = resolve_icon_path(fs, root, cfg.icon.as_str());
    let ur = crate::uv::ensure_uv(fs, fx, root, arch);
    proof {
        frame_hop_uv(rootv, s2, *fs);
        frame_chain(rootv, s0, s2, *fs);
        assert(s0.has_dir(rootv) ==> fs.has_dir(rootv));
        if avoid {
            assert forall|q: Seq<char>| #[trigger] in_tree(ab, q) implies fs.same_at(s2, q) by {
                if crate::payload::ends_with_spec(q, ".exe"@) {
                    lemma_backup_roots_not_exe(rootv, nonce);
                    assert(q != ab && q != vb);
                    assert(!crate::fs::immediate_child(rootv, q)) by {
                        if in_tree(ab, q) {
                            assert(q[ab.len() as int] == '\\');
                        } else {
                            assert(q[vb.len() as int] == '\\');
                        }
                    }
                }
            }
            assert forall|q: Seq<char>| #[trigger] in_tree(vb, q) implies fs.same_at(s2, q) by {
                if crate::payload::ends_with_spec(q, ".exe"@) {
                    lemma_backup_roots_not_exe(rootv, nonce);
                    assert(q != ab && q != vb);
                    assert(!crate::fs::immediate_child(rootv, q)) by {
                        if in_tree(ab, q) {
                            assert(q[ab.len() as int] == '\\');
                        } else {
                            assert(q[vb.len() as int] == '\\');
                        }
                    }
                }
            }
            parked_same_trans(rootv, nonce, s0, s2, *fs);
        
        }
    }
    match ur {
        Ok(()) => {},
        Err(e) => {
            proof {
                if smooth {
                    assert(smooth_install(s0, old(ex).plan(), old(ex).spawn_plan(), old(fx).fetch_plan(), *old(faults), rootv, app_name@, cfg.entry_point@, self_image@, payload_blob@, arch@, dnw));
                    if s2.has_file(joined(rootv, "uv.exe"@)) {
                    } else {
                        assert(old(fx).fetch_plan()[0] matches Some(bb) && crate::uv::uv_zip_wf(bb)
                            && crate::uv::uv_primary_present(rootv, bb));
                    }
                    assert(false);
                }
            }
            return Err(e);
        },
    }
    let ghost s3 = *fs;
    let rt = crate::paths::runtime_dir(root);
    ensure_runtime_dirs(fs, rt.as_str());
    proof {
        frame_hop_rtdirs(rootv, rt@, s3, *fs);
        frame_chain(rootv, s0, s3, *fs);
        assert(s0.has_dir(rootv) ==> fs.has_dir(rootv));
        if avoid {
            assert forall|q: Seq<char>| #[trigger] in_tree(ab, q) implies fs.same_at(s3, q) by {
                lemma_backups_vs_fixed(rootv, nonce);
                assert forall|w: Seq<char>| #[trigger] joined(rt@, w) == joined(
                    joined(rootv, ".runtime"@),
                    w,
                ) by {}
                if fs.has_dir(q) && !s3.has_dir(q) {
                    assert(false);
                }
            }
            assert forall|q: Seq<char>| #[trigger] in_tree(vb, q) implies fs.same_at(s3, q) by {
                lemma_backups_vs_fixed(rootv, nonce);
                assert forall|w: Seq<char>| #[trigger] joined(rt@, w) == joined(
                    joined(rootv, ".runtime"@),
                    w,
                ) by {}
                if fs.has_dir(q) && !s3.has_dir(q) {
                    assert(false);
                }
            }
            parked_same_trans(rootv, nonce, s0, s3, *fs);
        
        }
    }
    let proj = match find_project(fs, root) {
        Ok(p) => p,
        Err(e) => {
            proof {
                if smooth {
                    assert(smooth_install(s0, old(ex).plan(), old(ex).spawn_plan(), old(fx).fetch_plan(), *old(faults), rootv, app_name@, cfg.entry_point@, self_image@, payload_blob@, arch@, dnw));
                    let pd = joined(app_dir_spec(rootv), dnw);
                    let pp = joined(pd, "pyproject.toml"@);
                    reveal_strlit("pyproject.toml");
                    reveal_strlit("app");
                    reveal_strlit("data");
                    reveal_strlit(".exe");
                    // the payload delivered the project manifest
                    crate::payload::lemma_last_entry_hit(
                        rootv,
                        payload_blob@,
                        pp,
                        crate::payload::zip_count(payload_blob@) as int,
                    );
                    let i = choose|i: int|
                        0 <= i < crate::payload::zip_count(payload_blob@)
                            && crate::payload::file_entry(payload_blob@, i)
                            && #[trigger] crate::payload::entry_dest(rootv, payload_blob@, i) == pp
                            && (forall|j: int|
                            i < j < crate::payload::zip_count(payload_blob@)
                                && crate::payload::file_entry(payload_blob@, j)
                                ==> crate::payload::entry_dest(rootv, payload_blob@, j) != pp);
                    assert(!in_tree(crate::payload::data_dir_spec(rootv), pp)) by {
                        assert(pp[rootv.len() as int + 1] == 'a');
                        assert(crate::payload::data_dir_spec(rootv)[rootv.len() as int + 1]
                            == 'd');
                        lemma_head_mismatch(
                            crate::payload::data_dir_spec(rootv),
                            pp,
                            rootv.len() as int + 1,
                        );
                    }
                    assert(s2.has_file(pp));
                    assert(s2.has_dir(crate::paths::parent_dir_spec(pp)));
                    // the manifest's parent is the project directory
                    assert(crate::paths::parent_dir_spec(pp) == pd) by {
                        assert(pp[pd.len() as int] == '\\');
                        assert forall|k: int|
                            pd.len() + 1 <= k < pp.len() implies !crate::paths::is_sep(
                            pp[k],
                        ) by {
                            assert(pp[k] == "pyproject.toml"@[k - pd.len() - 1]);
                        }
                        crate::paths::lemma_base_start_at(pp, pd.len() as int + 1);
                        assert(pp.subrange(0, pd.len() as int) =~= pd);
                    }
                    // kept through the runtime install and directories
                    assert(!crate::payload::ends_with_spec(pp, ".exe"@)) by {
                        if crate::payload::ends_with_spec(pp, ".exe"@) {
                            assert(pp.subrange(pp.len() - 4, pp.len() as int)[3] == 'e');
                            assert(pp[pp.len() - 1] == 'l');
                        }
                    }
                    assert(s3.has_file(pp) && s3.has_dir(pd));
                    assert(fs.has_file(pp) && fs.has_dir(pd));
                    assert(crate::fs::immediate_child(app_dir_spec(rootv), pd)) by {
                        assert(pd.subrange(0, app_dir_spec(rootv).len() as int) =~= app_dir_spec(
                            rootv,
                        ));
                        assert forall|k: int|
                            app_dir_spec(rootv).len() + 1 <= k < pd.len() implies pd[k]
                            != '\\' by {
                            assert(pd[k] == dnw[k - app_dir_spec(rootv).len() - 1]);
                        }
                    }
                    assert(false);
                }
            }
            return Err(e);
        },
    };
    let lock_path = crate::paths::join(proj.as_str(), "uv.lock");
    let lock_mtime: u64 = match fs.file_mtime(lock_path.as_str()) {
        Some(t) => t,
        None => 0,
    };
    let uv_exe = crate::paths::join(root, "uv.exe");
    if !fs.file_exists(uv_exe.as_str()) {
        proof {
            if smooth {
                assert(smooth_install(s0, old(ex).plan(), old(ex).spawn_plan(), old(fx).fetch_plan(), *old(faults), rootv, app_name@, cfg.entry_point@, self_image@, payload_blob@, arch@, dnw));
                assert(s3.has_file(joined(rootv, "uv.exe"@)));
                assert(false);
            }
        }
        return Err(LibError::MissingUv);
    }
    let mut c1 = crate::uv::build_uv_cmd(uv_exe.as_str(), proj.as_str(), rt.as_str());
    c1.arg("python");
    c1.arg("install");
    match read_python_version(fs, proj.as_str()) {
        Ok(Some(v)) => {
            c1.arg(v.as_str());
        },
        Ok(None) => {},
        Err(e) => {
            proof {
                if smooth {
                    assert(smooth_install(s0, old(ex).plan(), old(ex).spawn_plan(), old(fx).fetch_plan(), *old(faults), rootv, app_name@, cfg.entry_point@, self_image@, payload_blob@, arch@, dnw));
                    let pvp = joined(proj@, ".python-version"@);
                    reveal_strlit(".python-version");
                    reveal_strlit(".exe");
                    assert(in_tree(app_dir_spec(rootv), pvp)) by {
                        lemma_joined_under(proj@, ".python-version"@);
                        lemma_in_tree_trans(app_dir_spec(rootv), proj@, pvp);
                    }
                    assert(!s0.has_file(pvp)) by {
                        if s0.has_file(pvp) {
                            assert(in_tree(app_dir_spec(rootv), pvp) && s0.node_exists(pvp));
                        }
                    }
                    assert(pvp[pvp.len() - 1] == 'n');
                    assert(!s1.has_file(pvp)) by {
                        assert(dest_exe@[dest_exe@.len() - 1] == 'e');
                        crate::dec::lemma_dec_spec_digits(nonce as nat);
                        assert(pvp != dest_exe@);
                        assert(pvp != crate::fs_ops::temp_path_spec(dest_exe@, nonce));
                    }
                    assert(!s2.has_file(pvp)) by {
                        assert(crate::payload::ends_with_spec(pvp, ".python-version"@)) by {
                            assert(pvp.subrange(
                                pvp.len() - ".python-version"@.len(),
                                pvp.len() as int,
                            ) =~= ".python-version"@);
                        }
                        assert forall|i: int|
                            crate::payload::file_entry(
                                payload_blob@,
                                i,
                            ) implies crate::payload::entry_dest(rootv, payload_blob@, i)
                            != pvp by {}
                    }
                    assert(!s3.has_file(pvp)) by {
                        if crate::payload::ends_with_spec(pvp, ".exe"@) {
                            assert(pvp.subrange(pvp.len() - 4, pvp.len() as int)[3] == 'e');
                        }
                    }
                    assert(!fs.has_file(pvp));
                    assert(false);
                }
            }
            return Err(e);
        },
    }
    proof {
        crate::ports::lemma_retry_used_bounds(ex.plan(), 5);
        crate::ports::lemma_retry_spec_errors(ex.plan(), 5);
    }
    match crate::ports::run_with_retry(ex, &c1, 5) {
        Ok(()) => {},
        Err(e) => {
            proof {
                if smooth {
                    assert(smooth_install(s0, old(ex).plan(), old(ex).spawn_plan(), old(fx).fetch_plan(), *old(faults), rootv, app_name@, cfg.entry_point@, self_image@, payload_blob@, arch@, dnw));
                    assert(crate::ports::retry_spec(old(ex).plan(), 5) == Result::<(), LibError>::Ok(()));
                    assert(false);
                }
            }
            return Err(e);
        },
    }
    proof {
        if smooth {
            assert(crate::ports::retry_used(old(ex).plan(), 5) == 1);
            assert(ex.plan() =~= old(ex).plan().skip(1));
        }
    }
    let mut c2 = crate::uv::build_uv_cmd(uv_exe.as_str(), proj.as_str(), rt.as_str());
    c2.arg("sync");
    if fs.file_exists(lock_path.as_str()) {
        c2.arg("--frozen");
    }
    proof {
        crate::ports::lemma_retry_used_bounds(ex.plan(), 5);
        crate::ports::lemma_retry_spec_errors(ex.plan(), 5);
    }
    match crate::ports::run_with_retry(ex, &c2, 5) {
        Ok(()) => {},
        Err(e) => {
            proof {
                if smooth {
                    assert(smooth_install(s0, old(ex).plan(), old(ex).spawn_plan(), old(fx).fetch_plan(), *old(faults), rootv, app_name@, cfg.entry_point@, self_image@, payload_blob@, arch@, dnw));
                    assert(old(ex).plan().skip(1)[0] == old(ex).plan()[1]);
                    assert(crate::ports::retry_spec(old(ex).plan().skip(1), 5) == Result::<
                        (),
                        LibError,
                    >::Ok(()));
                    assert(false);
                }
            }
            return Err(e);
        },
    }
    proof {
        if smooth {
            assert(old(ex).plan().skip(1)[0] == old(ex).plan()[1]);
            assert(crate::ports::retry_used(old(ex).plan().skip(1), 5) == 1);
            assert(ex.plan() =~= old(ex).plan().skip(2));
            assert(ex.plan()[0] == old(ex).plan()[2]);
            assert(ex.plan().len() >= 10);
        }
    }
    let ghost s4 = *fs;
    let cache = crate::paths::join(rt.as_str(), "cache");
    fs.remove_tree(cache.as_str());
    proof {
        frame_hop_cache(rootv, rt@, cache@, s4, *fs);
        frame_chain(rootv, s0, s4, *fs);
        assert(!in_tree(cache@, rootv)) by {
            reveal_strlit(".runtime");
            reveal_strlit("cache");
            assert(cache@.len() == rootv.len() + 15);
        }
        assert(s0.has_dir(rootv) ==> fs.has_dir(rootv));
        if avoid {
            assert forall|q: Seq<char>| #[trigger] in_tree(ab, q) implies fs.same_at(s4, q) by {
                lemma_backups_vs_fixed(rootv, nonce);
                assert(cache@ == joined(joined(rootv, ".runtime"@), "cache"@));
                assert(!in_tree(cache@, q)) by {
                    if in_tree(ab, q) {
                        lemma_trees_disjoint(ab, cache@, q);
                    } else {
                        lemma_trees_disjoint(vb, cache@, q);
                    }
                }
            }
            assert forall|q: Seq<char>| #[trigger] in_tree(vb, q) implies fs.same_at(s4, q) by {
                lemma_backups_vs_fixed(rootv, nonce);
                assert(cache@ == joined(joined(rootv, ".runtime"@), "cache"@));
                assert(!in_tree(cache@, q)) by {
                    if in_tree(ab, q) {
                        lemma_trees_disjoint(ab, cache@, q);
                    } else {
                        lemma_trees_disjoint(vb, cache@, q);
                    }
                }
            }
            parked_same_trans(rootv, nonce, s0, s4, *fs);
        
        }
    }
    match crate::shortcuts::create_start_menu_shortcut(
        ex,
        start_menu,
        app_name,
        dest_exe.as_str(),
        icon.as_ref(),
    ) {
        Ok(_) => {},
        Err(e) => {
            proof {
                if smooth {
                    assert(smooth_install(s0, old(ex).plan(), old(ex).spawn_plan(), old(fx).fetch_plan(), *old(faults), rootv, app_name@, cfg.entry_point@, self_image@, payload_blob@, arch@, dnw));
                    assert(false);
                }
            }
            return Err(e);
        },
    }
    proof {
        if smooth {
            assert(ex.plan() =~= old(ex).plan().skip(3));
            assert(ex.plan()[0] == old(ex).plan()[3]);
        }
    }
    let ghost s5 = *fs;
    let uninst = crate::paths::join(root, "uninstaller.exe");
    let self_copy = crate::fs::copy_bytes(self_image);
    fs.write_file(uninst.as_str(), self_copy);
    proof {
        lemma_joined_under(rootv, "uninstaller.exe"@);
        frame_hop_file(rootv, uninst@, s5, *fs);
        frame_chain(rootv, s0, s5, *fs);
        assert(s0.has_dir(rootv) ==> fs.has_dir(rootv));
        if avoid {
            assert forall|q: Seq<char>| #[trigger] in_tree(ab, q) implies fs.same_at(s5, q) by {
                lemma_backups_vs_fixed(rootv, nonce);
                assert(q != uninst@);
            }
            assert forall|q: Seq<char>| #[trigger] in_tree(vb, q) implies fs.same_at(s5, q) by {
                lemma_backups_vs_fixed(rootv, nonce);
                assert(q != uninst@);
            }
            parked_same_trans(rootv, nonce, s0, s5, *fs);
        
        }
    }
    let uninstall_name = crate::strutil::concat2("Uninstall ", app_name);
    match crate::shortcuts::create_start_menu_shortcut(
        ex,
        start_menu,
        uninstall_name.as_str(),
        uninst.as_str(),
        icon.as_ref(),
    ) {
        Ok(_) => {},
        Err(e) => {
            proof {
                if smooth {
                    assert(smooth_install(s0, old(ex).plan(), old(ex).spawn_plan(), old(fx).fetch_plan(), *old(faults), rootv, app_name@, cfg.entry_point@, self_image@, payload_blob@, arch@, dnw));
                    reveal_strlit("Uninstall ");
                    assert(uninstall_name@.len() > 0);
                    assert(false);
                }
            }
            return Err(e);
        },
    }
    let st0 = match crate::state::default_state_for_project(
        fs,
        root,
        proj.as_str(),
        cfg.entry_point.as_str(),
        cfg.version.as_str(),
    ) {
        Ok(st) => st,
        Err(e) => {
            proof {
                if smooth {
                    assert(smooth_install(s0, old(ex).plan(), old(ex).spawn_plan(), old(fx).fetch_plan(), *old(faults), rootv, app_name@, cfg.entry_point@, self_image@, payload_blob@, arch@, dnw));
                    reveal_strlit("module:");
                    assert(trim_spec(cfg.entry_point@).len() >= 7);
                    assert(crate::state::spec_fresh_entry(*fs, proj@, cfg.entry_point@) is Ok);
                    assert(false);
                }
            }
            return Err(e);
        },
    };
    let st = crate::state::State {
        project_rel: st0.project_rel,
        entry: st0.entry,
        lock_mtime_unix: lock_mtime,
        installed: st0.installed,
        launcher_version: st0.launcher_version,
    };
    let ghost s6 = *fs;
    let sp = crate::paths::state_path(root);
    crate::state::write_state(fs, sp.as_str(), &st);
    proof {
        frame_hop_state(rootv, sp@, s6, *fs);
        frame_chain(rootv, s0, s6, *fs);
        assert(rootv != crate::paths::parent_dir_spec(sp@)) by {
            reveal_strlit(".runtime");
            let rt2 = joined(rootv, ".runtime"@);
            assert(sp@[rt2.len() as int] == '\\');
            crate::payload::lemma_base_start_ge_root(sp@, rt2.len() as int + 1);
            assert(crate::paths::parent_dir_spec(sp@).len() >= rootv.len() + 9);
        }
        assert(s0.has_dir(rootv) ==> fs.has_dir(rootv));
        if avoid {
            // the record's parent directory is the runtime directory
            let rt2 = joined(rootv, ".runtime"@);
            assert(crate::paths::parent_dir_spec(sp@) == rt2) by {
                reveal_strlit(".runtime");
                reveal_strlit("state.json");
                assert(sp@[rt2.len() as int] == '\\');
                assert forall|k: int|
                    rt2.len() + 1 <= k < sp@.len() implies !crate::paths::is_sep(sp@[k]) by {
                    assert(sp@[k] == "state.json"@[k - rt2.len() - 1]);
                }
                crate::paths::lemma_base_start_at(sp@, rt2.len() as int + 1);
                assert(sp@.subrange(0, rt2.len() as int) =~= rt2);
            }
            assert forall|q: Seq<char>| #[trigger] in_tree(ab, q) implies fs.same_at(s6, q) by {
                lemma_backups_vs_fixed(rootv, nonce);
                assert(q != sp@);
                assert(q != crate::paths::parent_dir_spec(sp@));
            }
            assert forall|q: Seq<char>| #[trigger] in_tree(vb, q) implies fs.same_at(s6, q) by {
                lemma_backups_vs_fixed(rootv, nonce);
                assert(q != sp@);
                assert(q != crate::paths::parent_dir_spec(sp@));
            }
            parked_same_trans(rootv, nonce, s0, s6, *fs);
        }
    }
    let mut launch = crate::ports::CmdSpec::new(dest_exe.as_str());
    proof {
        assert(ex.spawned() == old(ex).spawned());
        assert(crate::ports::cmd_model(launch).args =~= Seq::<Seq<char>>::empty());
        assert(crate::ports::cmd_model(launch).envs =~= Seq::<(Seq<char>, Seq<char>)>::empty());
        assert(crate::ports::cmd_model(launch) == crate::ports::plain_cmd(
            shim_dest_spec(rootv, app_name@),
        ));
        if smooth {
            assert(ex.spawn_plan() == old(ex).spawn_plan());
        }
    }
    match ex.spawn(&launch) {
        Ok(()) => {},
        Err(e) => {
            proof {
                if smooth {
                    assert(smooth_install(s0, old(ex).plan(), old(ex).spawn_plan(), old(fx).fetch_plan(), *old(faults), rootv, app_name@, cfg.entry_point@, self_image@, payload_blob@, arch@, dnw));
                    assert(false);
                }
            }
            return Err(e);
        },
    }
    Ok(st)
}

/// Each hop of the transaction stays inside the root's tree.
proof fn frame_chain(root: Seq<char>, s0: Fs, sa: Fs, sb: Fs)
    requires
        forall|q: Seq<char>| !in_tree(root, q) ==> sa.same_at(s0, q),
        forall|q: Seq<char>| !in_tree(root, q) ==> sb.same_at(sa, q),
    ensures
        forall|q: Seq<char>| !in_tree(root, q) ==> sb.same_at(s0, q),
{
    assert forall|q: Seq<char>| !in_tree(root, q) implies sb.same_at(s0, q) by {
        assert(sa.same_at(s0, q));
        assert(sb.same_at(sa, q));
    }
}

proof fn frame_hop_shim(root: Seq<char>, x: Seq<char>, dest: Seq<char>, nonce: u64, pre: Fs, post: Fs)
    requires
        dest == joined(root, x),
        forall|q: Seq<char>|
            q != dest && q != crate::fs_ops::temp_path_spec(dest, nonce) ==> post.has_file(q)
                == pre.has_file(q),
        forall|q: Seq<char>|
            q != dest && q != crate::fs_ops::temp_path_spec(dest, nonce) && pre.has_file(q)
                ==> post.file_data(q) == pre.file_data(q) && post.file_stamp(q) == pre.file_stamp(
                q,
            ),
        forall|q: Seq<char>| post.has_dir(q) == pre.has_dir(q),
    ensures
        forall|q: Seq<char>| !in_tree(root, q) ==> post.same_at(pre, q),
{
    assert forall|q: Seq<char>| !in_tree(root, q) implies post.same_at(pre, q) by {
        lemma_joined_under(root, x);
        lemma_ext_in_tree(root, dest, ".tmp-"@ + crate::dec::dec_spec(nonce as nat));
        assert(crate::fs_ops::temp_path_spec(dest, nonce) == dest + (".tmp-"@
            + crate::dec::dec_spec(nonce as nat))) by {
            assert(dest + ".tmp-"@ + crate::dec::dec_spec(nonce as nat) =~= dest + (".tmp-"@
                + crate::dec::dec_spec(nonce as nat)));
        }
    }
}

proof fn frame_hop_file(root: Seq<char>, dest: Seq<char>, pre: Fs, post: Fs)
    requires
        in_tree(root, dest),
        forall|q: Seq<char>| q != dest ==> post.has_file(q) == pre.has_file(q),
        forall|q: Seq<char>|
            q != dest && pre.has_file(q) ==> post.file_data(q) == pre.file_data(q)
                && post.file_stamp(q) == pre.file_stamp(q),
        forall|q: Seq<char>| post.has_dir(q) == pre.has_dir(q),
    ensures
        forall|q: Seq<char>| !in_tree(root, q) ==> post.same_at(pre, q),
{
}

proof fn frame_hop_payload(root: Seq<char>, blob: Seq<u8>, pre: Fs, post: Fs)
    requires
        forall|q: Seq<char>|
            (forall|i: int|
                crate::payload::file_entry(blob, i) ==> crate::payload::entry_dest(root, blob, i)
                    != q) ==> post.has_file(q) == pre.has_file(q) && (pre.has_file(q)
                ==> post.file_data(q) == pre.file_data(q) && post.file_stamp(q) == pre.file_stamp(
                q,
            )),
        forall|q: Seq<char>| pre.has_dir(q) ==> post.has_dir(q),
        forall|q: Seq<char>| post.has_dir(q) ==> pre.has_dir(q) || in_tree(root, q),
    ensures
        forall|q: Seq<char>| !in_tree(root, q) ==> post.same_at(pre, q),
{
    assert forall|q: Seq<char>| !in_tree(root, q) implies post.same_at(pre, q) by {
        assert forall|i: int|
            crate::payload::file_entry(blob, i) implies crate::payload::entry_dest(root, blob, i)
            != q by {
            lemma_joined_under(
                root,
                crate::payload::convert_seps(crate::payload::zip_entry_name(blob, i)),
            );
        }
    }
}

proof fn frame_hop_uv(root: Seq<char>, pre: Fs, post: Fs)
    requires
        forall|q: Seq<char>|
            !crate::fs::immediate_child(root, q) ==> post.has_file(q) == pre.has_file(q) && (
            pre.has_file(q) ==> post.file_data(q) == pre.file_data(q) && post.file_stamp(q)
                == pre.file_stamp(q)),
        forall|q: Seq<char>| post.has_dir(q) == pre.has_dir(q),
    ensures
        forall|q: Seq<char>| !in_tree(root, q) ==> post.same_at(pre, q),
{
    assert forall|q: Seq<char>| !in_tree(root, q) implies post.same_at(pre, q) by {
        assert(!crate::fs::immediate_child(root, q)) by {
            if crate::fs::immediate_child(root, q) {
                assert(in_tree(root, q));
            }
        }
    }
}

proof fn frame_hop_rtdirs(root: Seq<char>, rt: Seq<char>, pre: Fs, post: Fs)
    requires
        rt == joined(root, ".runtime"@),
        forall|q: Seq<char>| post.has_file(q) == pre.has_file(q),
        forall|q: Seq<char>|
            pre.has_file(q) ==> post.file_data(q) == pre.file_data(q) && post.file_stamp(q)
                == pre.file_stamp(q),
        forall|q: Seq<char>| pre.has_dir(q) ==> post.has_dir(q),
        forall|q: Seq<char>|
            post.has_dir(q) ==> pre.has_dir(q) || q == joined(rt, "cache"@) || q == joined(
                rt,
                "python"@,
            ) || q == joined(rt, "python-bin"@) || q == joined(rt, "tools"@) || q == joined(
                rt,
                "tool-bin"@,
            ) || q == joined(rt, "venv"@) || q == joined(rt, "logs"@),
    ensures
        forall|q: Seq<char>| !in_tree(root, q) ==> post.same_at(pre, q),
{
    lemma_joined_under(root, ".runtime"@);
    assert forall|q: Seq<char>| !in_tree(root, q) implies post.same_at(pre, q) by {
        if post.has_dir(q) && !pre.has_dir(q) {
            let w = choose|w: Seq<char>| q == joined(rt, w);
            assert(q == joined(rt, "cache"@) || q == joined(rt, "python"@) || q == joined(
                rt,
                "python-bin"@,
            ) || q == joined(rt, "tools"@) || q == joined(rt, "tool-bin"@) || q == joined(
                rt,
                "venv"@,
            ) || q == joined(rt, "logs"@));
            if q == joined(rt, "cache"@) {
                lemma_joined_under(rt, "cache"@);
                lemma_in_tree_trans(root, rt, q);
            } else if q == joined(rt, "python"@) {
                lemma_joined_under(rt, "python"@);
                lemma_in_tree_trans(root, rt, q);
            } else if q == joined(rt, "python-bin"@) {
                lemma_joined_under(rt, "python-bin"@);
                lemma_in_tree_trans(root, rt, q);
            } else if q == joined(rt, "tools"@) {
                lemma_joined_under(rt, "tools"@);
                lemma_in_tree_trans(root, rt, q);
            } else if q == joined(rt, "tool-bin"@) {
                lemma_joined_under(rt, "tool-bin"@);
                lemma_in_tree_trans(root, rt, q);
            } else if q == joined(rt, "venv"@) {
                lemma_joined_under(rt, "venv"@);
                lemma_in_tree_trans(root, rt, q);
            } else {
                lemma_joined_under(rt, "logs"@);
                lemma_in_tree_trans(root, rt, q);
            }
        }
    }
}

proof fn frame_hop_cache(root: Seq<char>, rt: Seq<char>, cache: Seq<char>, pre: Fs, post: Fs)
    requires
        rt == joined(root, ".runtime"@),
        cache == joined(rt, "cache"@),
        forall|q: Seq<char>|
            !in_tree(cache, q) ==> post.has_file(q) == pre.has_file(q) && (pre.has_file(q)
                ==> post.file_data(q) == pre.file_data(q) && post.file_stamp(q) == pre.file_stamp(
                q,
            )) && post.has_dir(q) == pre.has_dir(q),
    ensures
        forall|q: Seq<char>| !in_tree(root, q) ==> post.same_at(pre, q),
{
    lemma_joined_under(root, ".runtime"@);
    lemma_joined_under(rt, "cache"@);
    lemma_in_tree_trans(root, rt, cache);
    assert forall|q: Seq<char>| !in_tree(root, q) implies post.same_at(pre, q) by {
        assert(!in_tree(cache, q)) by {
            if in_tree(cache, q) {
                lemma_in_tree_trans(root, cache, q);
            }
        }
    }
}

proof fn frame_hop_state(root: Seq<char>, sp: Seq<char>, pre: Fs, post: Fs)
    requires
        sp == state_path_spec(root),
        forall|q: Seq<char>| q != sp ==> post.has_file(q) == pre.has_file(q),
        forall|q: Seq<char>|
            q != sp && pre.has_file(q) ==> post.file_data(q) == pre.file_data(q)
                && post.file_stamp(q) == pre.file_stamp(q),
        forall|q: Seq<char>|
            q != crate::paths::parent_dir_spec(sp) ==> post.has_dir(q) == pre.has_dir(q),
    ensures
        forall|q: Seq<char>| !in_tree(root, q) ==> post.same_at(pre, q),
{
    let x = ".runtime"@ + seq!['\\'] + "state.json"@;
    assert(sp =~= joined(root, x));
    crate::payload::lemma_join_parent_in_tree(root, x);
    assert forall|q: Seq<char>| !in_tree(root, q) implies post.same_at(pre, q) by {
        assert(q != joined(root, x));
        assert(q != crate::paths::parent_dir_spec(joined(root, x)));
    }
}
/// One full engine run: decide install, upgrade or launch from the
/// stored version; park the previous payload and environment before
/// an upgrade; unwind on failure — a fresh install that fails leaves
/// no residual install root behind, and a failed upgrade puts the
/// parked trees back.
#[verifier::rlimit(100)]
#[verifier::spinoff_prover]
pub fn run_with_deps<E: crate::ports::Executor, F: crate::ports::Fetcher>(
    fs: &mut Fs,
    ex: &mut E,
    fx: &mut F,
    faults: &mut crate::fs_ops::FaultPlan,
    cfg: &AppConfig,
    install_root: &str,
    app_name: &str,
    self_image: &Vec<u8>,
    payload_blob: &Vec<u8>,
    arch: &str,
    start_menu: &str,
    nonce: u64,
) -> (r: Result<RunReport, LibError>)
    requires
        old(fs).inv(),
        old(ex).plan().len() >= 12,
        old(ex).spawn_plan().len() >= 1,
        old(fx).fetch_plan().len() >= 1,
    ensures
        final(fs).inv(),
        // a fresh install that fails leaves no residue of the root
        r is Err && !old(fs).has_file(state_path_spec(install_root@)) && !old(fs).tree_used(
            install_root@,
        ) ==> !final(fs).tree_used(install_root@),
        forall|q: Seq<char>| !in_tree(install_root@, q) ==> final(fs).same_at(*old(fs), q),
        // an install or upgrade leaves the running version on record
        r matches Ok(rep) && rep.upgraded ==> exists|sv: crate::state::StateView|
            final(fs).file_data(state_path_spec(install_root@)) == crate::strutil::utf8_of(
                #[trigger] crate::state::state_text(sv),
            ) && sv.launcher_version == cfg.version@ && sv.installed,
        // and removes its parked trees
        r matches Ok(rep) && rep.backed_up_app ==> !final(fs).tree_used(
            app_backup_spec(install_root@, nonce),
        ),
        r matches Ok(rep) && rep.backed_up_venv ==> !final(fs).tree_used(
            venv_backup_spec(install_root@, nonce),
        ),
        // a backup is taken only for trees that were really there
        r matches Ok(rep) ==> (rep.backed_up_app ==> old(fs).tree_used(
            app_dir_spec(install_root@),
        )) && (rep.backed_up_venv ==> old(fs).tree_used(venv_dir_spec(install_root@))) && (
        rep.backed_up_app || rep.backed_up_venv ==> old(fs).has_file(
            state_path_spec(install_root@),
        )),
        // launch-only: the stored version matched, and beyond refreshing
        // the uninstaller image no file changed
        r matches Ok(rep) && !rep.upgraded ==> forall|q: Seq<char>|
            q != uninstaller_dest_spec(install_root@) ==> final(fs).has_file(q) == old(fs).has_file(
                q,
            ) && (old(fs).has_file(q) ==> final(fs).file_data(q) == old(fs).file_data(q)),
        // launch-only consumes exactly the one hand-off spawn, and the
        // command handed off is the installed launcher image itself
        r matches Ok(rep) && !rep.upgraded ==> final(ex).spawn_plan() == old(ex).spawn_plan().drop_first() && final(ex).spawned() == old(ex).spawned().push(
            crate::ports::plain_cmd(shim_dest_spec(install_root@, app_name@)),
        ),
        // an install or upgrade ends in the same hand-off of the
        // installed image
        r matches Ok(rep) && rep.upgraded ==> final(ex).spawned() == old(ex).spawned().push(
            crate::ports::plain_cmd(shim_dest_spec(install_root@, app_name@)),
        ),
        r != Result::<RunReport, LibError>::Err(LibError::StateNotFound),
        // the stored record decides the path taken: a corrupt record
        // aborts, an older stored version refuses to downgrade, a
        // matching one only launches, anything else upgrades
        old(fs).has_file(state_path_spec(install_root@)) ==> forall|c: Seq<char>|
            old(fs).file_data(state_path_spec(install_root@)) == crate::strutil::utf8_of(c)
                ==> match crate::state::spec_parse_state(c) {
                None => r == Result::<RunReport, LibError>::Err(LibError::StateCorrupt),
                Some(sv) => {
                    let rel = crate::version::compare_spec(sv.launcher_version, cfg.version@);
                    &&& (rel == crate::version::VersionRelation::Older <==> r == Result::<
                        RunReport,
                        LibError,
                    >::Err(LibError::Downgrade))
                    &&& (r matches Ok(rep) ==> (rep.upgraded <==> rel
                        != crate::version::VersionRelation::Same))
                    &&& (rel != crate::version::VersionRelation::Older && rel
                        != crate::version::VersionRelation::Same && !old(fs).tree_used(
                        app_backup_spec(install_root@, nonce),
                    ) && !old(fs).tree_used(venv_backup_spec(install_root@, nonce))
                        && self_image@.len() == 0 ==> r == Result::<RunReport, LibError>::Err(
                        LibError::EmptyShim,
                    ))
                    // a matching record hands off exactly when the one
                    // planned spawn goes through
                    &&& (rel == crate::version::VersionRelation::Same ==> (r is Ok <==> old(ex).spawn_plan()[0]) && (r is Err ==> r == Result::<RunReport, LibError>::Err(
                        LibError::SpawnFailed,
                    )))
                    // a failed upgrade puts the parked payload and
                    // environment trees back exactly
                    &&& (rel != crate::version::VersionRelation::Older && rel
                        != crate::version::VersionRelation::Same && !old(fs).tree_used(
                        app_backup_spec(install_root@, nonce),
                    ) && !old(fs).tree_used(venv_backup_spec(install_root@, nonce)) && old(fs).tree_used(app_dir_spec(install_root@)) && old(fs).tree_used(
                        venv_dir_spec(install_root@),
                    ) && steps_avoid_backups(install_root@, app_name@, payload_blob@, nonce)
                        && r is Err ==> forall|q: Seq<char>|
                        in_tree(app_dir_spec(install_root@), q) || in_tree(
                            venv_dir_spec(install_root@),
                            q,
                        ) ==> final(fs).same_at(*old(fs), q))
                },
            },
        // with no record at all, the run is a fresh install
        !old(fs).has_file(state_path_spec(install_root@)) ==> r != Result::<
            RunReport,
            LibError,
        >::Err(LibError::Downgrade) && (r matches Ok(rep) ==> rep.upgraded) && (self_image@.len()
            == 0 ==> r == Result::<RunReport, LibError>::Err(LibError::EmptyShim)),
        // refusing to downgrade changes no file, and no directory but
        // the root's own entry
        r == Result::<RunReport, LibError>::Err(LibError::Downgrade) ==> (forall|q: Seq<char>|
            final(fs).has_file(q) == old(fs).has_file(q) && (old(fs).has_file(q) ==> final(fs).file_data(q) == old(fs).file_data(q))) && (forall|q: Seq<char>|
            q != install_root@ ==> final(fs).has_dir(q) == old(fs).has_dir(q)),
        // a pre-existing root survives a failed run
        r is Err && old(fs).tree_used(install_root@) ==> final(fs).tree_used(install_root@),
        // a fresh run with benign plans and well-formed inputs installs
        !old(fs).has_file(state_path_spec(install_root@)) && (exists|dn: Seq<char>|
            smooth_install(
                *old(fs),
                old(ex).plan(),
                old(ex).spawn_plan(),
                old(fx).fetch_plan(),
                *old(faults),
                install_root@,
                app_name@,
                cfg.entry_point@,
                self_image@,
                payload_blob@,
                arch@,
                dn,
            )) ==> r is Ok,
{
    let ghost root = install_root@;
    let ghost s0 = *fs;
    let ghost mut s_pre_backup = s0;
    let root_existed = fs.tree_exists(install_root);
    fs.create_dir(install_root);
    proof {
        assert forall|q: Seq<char>| !in_tree(root, q) implies fs.same_at(s0, q) by {}
    }
    let ghost s1 = *fs;
    let sp = crate::paths::state_path(install_root);
    let had_state = fs.file_exists(sp.as_str());
    proof {
        assert(had_state == s0.has_file(state_path_spec(root))) by {
            let x = ".runtime"@ + seq!['\\'] + "state.json"@;
            assert(state_path_spec(root) =~= joined(root, x));
            lemma_joined_under(root, x);
        }
    }
    let existing: Option<crate::state::State> = if had_state {
        match crate::state::read_state(fs, sp.as_str()) {
            Ok(st) => Some(st),
            Err(e) => {
                return Err(e);
            },
        }
    } else {
        None
    };
    let relation: crate::version::VersionRelation = match &existing {
        Some(st) => crate::version::compare_versions(
            st.launcher_version.as_str(),
            cfg.version.as_str(),
        ),
        None => crate::version::VersionRelation::Unknown,
    };
    proof {
        if had_state {
            assert forall|c: Seq<char>|
                s0.file_data(state_path_spec(root)) == crate::strutil::utf8_of(
                    c,
                ) implies (crate::state::spec_parse_state(c)
                matches Some(sv) && sv == existing->Some_0@ && relation
                == crate::version::compare_spec(sv.launcher_version, cfg.version@)) by {
                assert(s1.file_data(state_path_spec(root)) == s0.file_data(
                    state_path_spec(root),
                ));
            }
        }
        assert(fs.has_dir(root));
        assert(in_tree(root, root));
    }
    let dest_exe = shim_dest(install_root, app_name);
    if existing.is_some() && matches!(relation, crate::version::VersionRelation::Same) {
        // launch-only: refresh the uninstall entry, hand off
        let icon = resolve_icon_path(fs, install_root, cfg.icon.as_str());
        let uninst = crate::paths::join(install_root, "uninstaller.exe");
        let self_copy = crate::fs::copy_bytes(self_image);
        let ghost s2 = *fs;
        fs.write_file(uninst.as_str(), self_copy);
        proof {
            lemma_joined_under(root, "uninstaller.exe"@);
            frame_hop_file(root, uninst@, s2, *fs);
            frame_chain(root, s0, s2, *fs);
        }
        proof {
            lemma_joined_under(root, "uninstaller.exe"@);
            assert forall|q: Seq<char>| q != uninstaller_dest_spec(root) implies fs.has_file(q)
                == s0.has_file(q) && (s0.has_file(q) ==> fs.file_data(q) == s0.file_data(q)) by {
                assert(fs.has_file(q) == s2.has_file(q));
                assert(s2.has_file(q) == s0.has_file(q));
            }
        }
        let uninstall_name = crate::strutil::concat2("Uninstall ", app_name);
        let _ = crate::shortcuts::create_start_menu_shortcut(
            ex,
            start_menu,
            uninstall_name.as_str(),
            uninst.as_str(),
            icon.as_ref(),
        );
        proof {
            assert(fs.has_dir(root));
        }
        let launch = crate::ports::CmdSpec::new(dest_exe.as_str());
        proof {
            assert(ex.spawned() == old(ex).spawned());
            assert(ex.spawn_plan() == old(ex).spawn_plan()) by {
                reveal_strlit("Uninstall ");
                assert(uninstall_name@.len() > 0);
            }
            assert(crate::ports::cmd_model(launch).args =~= Seq::<Seq<char>>::empty());
            assert(crate::ports::cmd_model(launch).envs =~= Seq::<(Seq<char>, Seq<char>)>::empty());
            assert(crate::ports::cmd_model(launch) == crate::ports::plain_cmd(
                shim_dest_spec(root, app_name@),
            ));
        }
        return match ex.spawn(&launch) {
            Ok(()) => Ok(RunReport { upgraded: false, backed_up_app: false, backed_up_venv: false }),
            Err(e) => Err(e),
        };
    }
    if existing.is_some() && matches!(relation, crate::version::VersionRelation::Older) {
        return Err(LibError::Downgrade);
    }
    let backup: Option<UpgradeBackup> = if existing.is_some() {
        let app_bak = app_backup_path(install_root, nonce);
        let venv_bak = venv_backup_path(install_root, nonce);
        proof {
            assert forall|p: Seq<char>|
                #[trigger] in_tree(app_backup_spec(root, nonce), p) implies s1.same_at(s0, p) by {
                assert(p.len() > root.len());
            }
            tree_used_same(s1, s0, app_backup_spec(root, nonce));
            assert forall|p: Seq<char>|
                #[trigger] in_tree(venv_backup_spec(root, nonce), p) implies s1.same_at(s0, p) by {
                assert(p.len() > root.len());
            }
            tree_used_same(s1, s0, venv_backup_spec(root, nonce));
        }
        if fs.tree_exists(app_bak.as_str()) || fs.tree_exists(venv_bak.as_str()) {
            return Err(LibError::RenameTargetExists);
        }
        proof {
            lemma_engine_tree_shapes(root, nonce);
            s_pre_backup = *fs;
        }
        let ghost s2 = *fs;
        match UpgradeBackup::create(fs, install_root, nonce) {
            Ok(b) => {
                proof {
                    assert forall|q: Seq<char>| !in_tree(root, q) implies fs.same_at(s2, q) by {
                        if in_tree(app_dir_spec(root), q) {
                            lemma_in_tree_trans(root, app_dir_spec(root), q);
                        }
                        if in_tree(app_backup_spec(root, nonce), q) {
                            lemma_in_tree_trans(root, app_backup_spec(root, nonce), q);
                        }
                        if in_tree(venv_dir_spec(root), q) {
                            lemma_in_tree_trans(root, venv_dir_spec(root), q);
                        }
                        if in_tree(venv_backup_spec(root, nonce), q) {
                            lemma_in_tree_trans(root, venv_backup_spec(root, nonce), q);
                        }
                    }
                    frame_chain(root, s0, s2, *fs);
                }
                Some(b)
            },
            Err(e) => {
                proof {
                    assert(false);
                }
                return Err(e);
            },
        }
    } else {
        None
    };
    let ghost sb = *fs;
    proof {
        if backup is Some {
            assert forall|p: Seq<char>|
                #[trigger] in_tree(app_dir_spec(root), p) implies s1.same_at(s0, p) by {
                assert(p.len() > root.len());
            }
            tree_used_same(s1, s0, app_dir_spec(root));
            assert forall|p: Seq<char>|
                #[trigger] in_tree(venv_dir_spec(root), p) implies s1.same_at(s0, p) by {
                assert(p.len() > root.len());
            }
            tree_used_same(s1, s0, venv_dir_spec(root));
        }
    }
    proof {
        if !had_state && (exists|dn: Seq<char>|
            smooth_install(
                s0,
                old(ex).plan(),
                old(ex).spawn_plan(),
                old(fx).fetch_plan(),
                *old(faults),
                root,
                app_name@,
                cfg.entry_point@,
                self_image@,
                payload_blob@,
                arch@,
                dn,
            )) {
            let dn = choose|dn: Seq<char>|
                smooth_install(
                    s0,
                    old(ex).plan(),
                    old(ex).spawn_plan(),
                    old(fx).fetch_plan(),
                    *old(faults),
                    root,
                    app_name@,
                    cfg.entry_point@,
                    self_image@,
                    payload_blob@,
                    arch@,
                    dn,
                );
            assert(!fs.tree_used(app_dir_spec(root))) by {
                if fs.tree_used(app_dir_spec(root)) {
                    let p = choose|p: Seq<char>|
                        #[trigger] in_tree(app_dir_spec(root), p) && fs.node_exists(p);
                    assert(p.len() > root.len());
                    assert(s0.node_exists(p));
                    assert(s0.tree_used(app_dir_spec(root)));
                }
            }
            assert(smooth_install(
                *fs,
                old(ex).plan(),
                old(ex).spawn_plan(),
                old(fx).fetch_plan(),
                *old(faults),
                root,
                app_name@,
                cfg.entry_point@,
                self_image@,
                payload_blob@,
                arch@,
                dn,
            ));
        }
    }
    let result = install_steps(
        fs,
        ex,
        fx,
        faults,
        cfg,
        install_root,
        app_name,
        self_image,
        payload_blob,
        arch,
        start_menu,
        nonce,
    );
    let ghost sf = *fs;
    proof {
        frame_chain(root, s0, sb, *fs);
    }
    match result {
        Ok(st) => {
            match &backup {
                Some(b) => {
                    proof {
                        lemma_engine_tree_shapes(root, nonce);
                    }
                    UpgradeBackup::cleanup(fs, install_root, nonce, b);
                    proof {
                        assert forall|q: Seq<char>| !in_tree(root, q) implies fs.same_at(
                            sf,
                            q,
                        ) by {
                            if in_tree(app_backup_spec(root, nonce), q) {
                                lemma_in_tree_trans(root, app_backup_spec(root, nonce), q);
                            }
                            if in_tree(venv_backup_spec(root, nonce), q) {
                                lemma_in_tree_trans(root, venv_backup_spec(root, nonce), q);
                            }
                        }
                        frame_chain(root, s0, sf, *fs);
                        // the state record survives backup cleanup
                        let x = ".runtime"@ + seq!['\\'] + "state.json"@;
                        assert(state_path_spec(root) =~= joined(root, x));
                        lemma_state_not_in_backups(root, nonce);
                        assert(fs.same_at(sf, state_path_spec(root)));
                    }
                    let rep = RunReport {
                        upgraded: true,
                        backed_up_app: b.app_backup.is_some(),
                        backed_up_venv: b.venv_backup.is_some(),
                    };
                    proof {
                        assert(exists|sv: crate::state::StateView|
                            fs.file_data(state_path_spec(root)) == crate::strutil::utf8_of(
                                #[trigger] crate::state::state_text(sv),
                            ) && sv.launcher_version == cfg.version@ && sv.installed) by {
                            assert(fs.file_data(state_path_spec(root)) == crate::strutil::utf8_of(
                                crate::state::state_text(st@),
                            ) && st@.launcher_version == cfg.version@ && st@.installed);
                        }
                    }
                    Ok(rep)
                },
                None => {
                    Ok(RunReport { upgraded: true, backed_up_app: false, backed_up_venv: false })
                },
            }
        },
        Err(e) => {
            match &backup {
                Some(b) => {
                    proof {
                        lemma_engine_tree_shapes(root, nonce);
                    }
                    UpgradeBackup::restore(fs, install_root, nonce, b);
                    proof {
                        assert forall|q: Seq<char>| !in_tree(root, q) implies fs.same_at(
                            sf,
                            q,
                        ) by {
                            if in_tree(app_dir_spec(root), q) {
                                lemma_in_tree_trans(root, app_dir_spec(root), q);
                            }
                            if in_tree(app_backup_spec(root, nonce), q) {
                                lemma_in_tree_trans(root, app_backup_spec(root, nonce), q);
                            }
                            if in_tree(venv_dir_spec(root), q) {
                                lemma_in_tree_trans(root, venv_dir_spec(root), q);
                            }
                            if in_tree(venv_backup_spec(root, nonce), q) {
                                lemma_in_tree_trans(root, venv_backup_spec(root, nonce), q);
                            }
                        }
                        frame_chain(root, s0, sf, *fs);
                        if s0.tree_used(app_dir_spec(root)) && s0.tree_used(venv_dir_spec(root))
                            && steps_avoid_backups(root, app_name@, payload_blob@, nonce) {
                            assert(b.app_backup is Some && b.venv_backup is Some) by {
                                assert(s_pre_backup.tree_used(app_dir_spec(root)) == s0.tree_used(
                                    app_dir_spec(root),
                                ));
                                assert(s_pre_backup.tree_used(venv_dir_spec(root)) == s0.tree_used(
                                    venv_dir_spec(root),
                                ));
                            }
                            assert forall|p: Seq<char>|
                                #[trigger] in_tree(
                                    app_backup_spec(root, nonce),
                                    p,
                                ) implies sf.same_at(sb, p) by {
                                assert(sf.same_at(sb, p));
                            }
                            assert forall|p: Seq<char>|
                                #[trigger] in_tree(
                                    venv_backup_spec(root, nonce),
                                    p,
                                ) implies sf.same_at(sb, p) by {
                                assert(sf.same_at(sb, p));
                            }
                            lemma_upgrade_rollback(s_pre_backup, sb, sf, *fs, root, nonce);
                            assert forall|q: Seq<char>|
                                in_tree(app_dir_spec(root), q) || in_tree(
                                    venv_dir_spec(root),
                                    q,
                                ) implies fs.same_at(s0, q) by {
                                assert(q.len() > root.len());
                                assert(s_pre_backup.same_at(s0, q));
                            }
                        }
                    }
                },
                None => {
                    if !root_existed {
                        fs.remove_tree(install_root);
                        proof {
                            assert(!fs.tree_used(root)) by {
                                if fs.tree_used(root) {
                                    let p = choose|p: Seq<char>|
                                        #[trigger] in_tree(root, p) && fs.node_exists(p);
                                }
                            }
                            assert forall|q: Seq<char>| !in_tree(root, q) implies fs.same_at(
                                sf,
                                q,
                            ) by {}
                            frame_chain(root, s0, sf, *fs);
                        }
                    }
                },
            }
            Err(e)
        },
    }
}

/// Two states that agree on every path of a tree hold it equally.
proof fn tree_used_same(a: Fs, b: Fs, tree: Seq<char>)
    requires
        forall|p: Seq<char>| #[trigger] in_tree(tree, p) ==> a.same_at(b, p),
    ensures
        a.tree_used(tree) == b.tree_used(tree),
{
    if a.tree_used(tree) {
        let p = choose|p: Seq<char>| #[trigger] in_tree(tree, p) && a.node_exists(p);
        assert(a.same_at(b, p));
    }
    if b.tree_used(tree) {
        let p = choose|p: Seq<char>| #[trigger] in_tree(tree, p) && b.node_exists(p);
        assert(a.same_at(b, p));
    }
}

/// The state record does not lie in either parked tree.
proof fn lemma_state_not_in_backups(root: Seq<char>, nonce: u64)
    ensures
        !in_tree(app_backup_spec(root, nonce), state_path_spec(root)),
        !in_tree(venv_backup_spec(root, nonce), state_path_spec(root)),
{
    reveal_strlit("app.backup.");
    reveal_strlit("venv.backup.");
    reveal_strlit(".runtime");
    let x = ".runtime"@ + seq!['\\'] + "state.json"@;
    assert(state_path_spec(root) =~= joined(root, x));
    let ab = "app.backup."@ + dec_spec(nonce as nat);
    let vb = "venv.backup."@ + dec_spec(nonce as nat);
    assert(x[0] == '.' && ab[0] == 'a' && vb[0] == 'v');
    lemma_name_disjoint(ab, x);
    lemma_name_disjoint(vb, x);
    lemma_joined_in_tree(root, ab, x);
    lemma_joined_in_tree(root, vb, x);
    assert(in_tree(joined(root, ab), joined(root, x)) == in_tree(ab, x));
    assert(state_path_spec(root) == joined(root, x));
}

/// An upgrade whose later steps fail after a backup was taken gets the
/// pre-upgrade payload and environment trees back, exactly: for any
/// run in which the previous trees were parked (`staged`), the failing
/// steps left the parked trees alone (`failed`), and the rollback ran
/// (`restored`), every path of the payload and environment trees holds
/// in `restored` precisely what it held before the upgrade began.
pub proof fn lemma_upgrade_rollback(
    pre: Fs,
    staged: Fs,
    failed: Fs,
    restored: Fs,
    root: Seq<char>,
    nonce: u64,
)
    requires
        // the payload tree existed and was parked
        pre.tree_used(app_dir_spec(root)),
        pre.tree_used(venv_dir_spec(root)),
        forall|p: Seq<char>|
            #[trigger] in_tree(app_dir_spec(root), p) ==> staged.has_file(
                rebase(app_dir_spec(root), app_backup_spec(root, nonce), p),
            ) == pre.has_file(p) && (pre.has_file(p) ==> staged.file_data(
                rebase(app_dir_spec(root), app_backup_spec(root, nonce), p),
            ) == pre.file_data(p) && staged.file_stamp(
                rebase(app_dir_spec(root), app_backup_spec(root, nonce), p),
            ) == pre.file_stamp(p)) && staged.has_dir(
                rebase(app_dir_spec(root), app_backup_spec(root, nonce), p),
            ) == pre.has_dir(p),
        forall|p: Seq<char>|
            #[trigger] in_tree(venv_dir_spec(root), p) ==> staged.has_file(
                rebase(venv_dir_spec(root), venv_backup_spec(root, nonce), p),
            ) == pre.has_file(p) && (pre.has_file(p) ==> staged.file_data(
                rebase(venv_dir_spec(root), venv_backup_spec(root, nonce), p),
            ) == pre.file_data(p) && staged.file_stamp(
                rebase(venv_dir_spec(root), venv_backup_spec(root, nonce), p),
            ) == pre.file_stamp(p)) && staged.has_dir(
                rebase(venv_dir_spec(root), venv_backup_spec(root, nonce), p),
            ) == pre.has_dir(p),
        // the failing steps left the parked trees alone
        forall|p: Seq<char>|
            #[trigger] in_tree(app_backup_spec(root, nonce), p) ==> failed.same_at(staged, p),
        forall|p: Seq<char>|
            #[trigger] in_tree(venv_backup_spec(root, nonce), p) ==> failed.same_at(staged, p),
        // the rollback put them back
        forall|p: Seq<char>|
            #[trigger] in_tree(app_dir_spec(root), p) ==> restored.has_file(p) == failed.has_file(
                rebase(app_dir_spec(root), app_backup_spec(root, nonce), p),
            ) && (restored.has_file(p) ==> restored.file_data(p) == failed.file_data(
                rebase(app_dir_spec(root), app_backup_spec(root, nonce), p),
            ) && restored.file_stamp(p) == failed.file_stamp(
                rebase(app_dir_spec(root), app_backup_spec(root, nonce), p),
            )) && restored.has_dir(p) == failed.has_dir(
                rebase(app_dir_spec(root), app_backup_spec(root, nonce), p),
            ),
        forall|p: Seq<char>|
            #[trigger] in_tree(venv_dir_spec(root), p) ==> restored.has_file(p)
                == failed.has_file(rebase(venv_dir_spec(root), venv_backup_spec(root, nonce), p))
                && (restored.has_file(p) ==> restored.file_data(p) == failed.file_data(
                rebase(venv_dir_spec(root), venv_backup_spec(root, nonce), p),
            ) && restored.file_stamp(p) == failed.file_stamp(
                rebase(venv_dir_spec(root), venv_backup_spec(root, nonce), p),
            )) && restored.has_dir(p) == failed.has_dir(
                rebase(venv_dir_spec(root), venv_backup_spec(root, nonce), p),
            ),
    ensures
        forall|q: Seq<char>|
            #[trigger] in_tree(app_dir_spec(root), q) ==> restored.has_file(q) == pre.has_file(q)
                && (pre.has_file(q) ==> restored.file_data(q) == pre.file_data(q)
                && restored.file_stamp(q) == pre.file_stamp(q)) && restored.has_dir(q)
                == pre.has_dir(q),
        forall|q: Seq<char>|
            #[trigger] in_tree(venv_dir_spec(root), q) ==> restored.has_file(q) == pre.has_file(q)
                && (pre.has_file(q) ==> restored.file_data(q) == pre.file_data(q)
                && restored.file_stamp(q) == pre.file_stamp(q)) && restored.has_dir(q)
                == pre.has_dir(q),
{
    let ad = app_dir_spec(root);
    let ab = app_backup_spec(root, nonce);
    let vd = venv_dir_spec(root);
    let vb = venv_backup_spec(root, nonce);
    assert forall|q: Seq<char>| #[trigger] in_tree(ad, q) implies restored.has_file(q)
        == pre.has_file(q) && (pre.has_file(q) ==> restored.file_data(q) == pre.file_data(q)
        && restored.file_stamp(q) == pre.file_stamp(q)) && restored.has_dir(q) == pre.has_dir(
        q,
    ) by {
        lemma_rebase_roundtrip(ad, ab, q);
        let rq = rebase(ad, ab, q);
        assert(failed.same_at(staged, rq));
    }
    assert forall|q: Seq<char>| #[trigger] in_tree(vd, q) implies restored.has_file(q)
        == pre.has_file(q) && (pre.has_file(q) ==> restored.file_data(q) == pre.file_data(q)
        && restored.file_stamp(q) == pre.file_stamp(q)) && restored.has_dir(q) == pre.has_dir(
        q,
    ) by {
        lemma_rebase_roundtrip(vd, vb, q);
        let rq = rebase(vd, vb, q);
        assert(failed.same_at(staged, rq));
    }
}
/// The value following a flag among the arguments.
pub fn arg_value(args: &Vec<String>, key: &str) -> (r: Option<String>)
    ensures
        ({
            let k = crate::builder::first_key_at(args@, key@);
            if k + 1 < args@.len() {
                r matches Some(v) && v@ == args@[k + 1]@
            } else {
                r is None
            }
        }),
{
    crate::builder::parse_arg(args, key)
}

/// Whether the running executable's own name marks it as the
/// uninstaller.
pub fn exe_name_is_uninstaller(exe_path: &str) -> (r: Result<bool, LibError>)
    ensures
        r is Ok,
        r matches Ok(b) ==> b == crate::strutil::contains_spec(
            crate::strutil::lower_spec(crate::paths::file_stem_spec(exe_path@)),
            "uninstall"@,
        ),
{
    proof {
        reveal_strlit("uninstall");
    }
    let stem = match crate::paths::app_name_from_exe(exe_path) {
        Ok(s) => s,
        Err(_) => {
            proof {
                let t = crate::strutil::lower_spec(crate::paths::file_stem_spec(exe_path@));
                assert(t.len() == 0);
                assert(!crate::strutil::contains_spec(t, "uninstall"@)) by {
                    if crate::strutil::contains_spec(t, "uninstall"@) {
                        let k = choose|k: int| crate::strutil::has_substr_at(t, "uninstall"@, k);
                        assert(k + 9 <= 0);
                    }
                }
            }
            return Ok(false);
        },
    };
    let lowered = crate::strutil::to_ascii_lower(stem.as_str());
    Ok(crate::strutil::contains_substr(lowered.as_str(), "uninstall"))
}

/// Which code path a start of the binary selects.
pub enum StartMode {
    /// Phase two of self-deletion: remove the named install root.
    FinalizeUninstall(String, Option<String>),
    /// Phase one: copy the running image aside and delegate.
    Uninstall,
    /// A plain install or launch.
    Install,
}

/// The two-phase self-deletion protocol's dispatch: a finalize flag
/// carries the target root and app name; an uninstall flag, or an
/// uninstaller-named executable, starts phase one.
pub fn detect_start_mode(args: &Vec<String>, exe_path: &str) -> (r: Result<StartMode, LibError>)
    ensures
        r is Ok,
        // the finalize flag, with its value, selects phase two
        ({
            let k = crate::builder::first_key_at(args@, "--finalize-uninstall"@);
            k + 1 < args@.len()
        }) ==> (r matches Ok(m) && m matches StartMode::FinalizeUninstall(t, _) && t@
            == args@[crate::builder::first_key_at(args@, "--finalize-uninstall"@) + 1]@),
        // else an uninstall flag selects phase one
        !({
            let k = crate::builder::first_key_at(args@, "--finalize-uninstall"@);
            k + 1 < args@.len()
        }) && (exists|i: int| 0 <= i < args@.len() && (#[trigger] args@[i])@ == "--uninstall"@)
            ==> r == Result::<StartMode, LibError>::Ok(StartMode::Uninstall),
        // else the executable's own name decides
        !({
            let k = crate::builder::first_key_at(args@, "--finalize-uninstall"@);
            k + 1 < args@.len()
        }) && !(exists|i: int| 0 <= i < args@.len() && (#[trigger] args@[i])@ == "--uninstall"@)
            ==> r == Result::<StartMode, LibError>::Ok(
            if crate::strutil::contains_spec(
                crate::strutil::lower_spec(crate::paths::file_stem_spec(exe_path@)),
                "uninstall"@,
            ) {
                StartMode::Uninstall
            } else {
                StartMode::Install
            },
        ),
{
    proof {
        reveal_strlit("--uninstall");
    }
    match arg_value(args, "--finalize-uninstall") {
        Some(target) => {
            let app = arg_value(args, "--app-name");
            return Ok(StartMode::FinalizeUninstall(target, app));
        },
        None => {},
    }
    let n = args.len();
    let mut i: usize = 0;
    while i < n
        invariant
            i <= n,
            n == args@.len(),
            forall|j: int| 0 <= j < i ==> (#[trigger] args@[j])@ != "--uninstall"@,
            !(crate::builder::first_key_at(args@, "--finalize-uninstall"@) + 1 < args@.len()),
        decreases n - i,
    {
        if crate::strutil::str_eq(args[i].as_str(), "--uninstall") {
            return Ok(StartMode::Uninstall);
        }
        i += 1;
    }
    match exe_name_is_uninstaller(exe_path) {
        Ok(true) => Ok(StartMode::Uninstall),
        Ok(false) => Ok(StartMode::Install),
        Err(e) => Err(e),
    }
}

/// Phase two of uninstallation: best-effort removal of the two
/// program-menu entries, then deletion of the whole install root,
/// which alone is fatal if anything of it would remain.
pub fn finalize_uninstall(fs: &mut Fs, install_root: &str, app_name: Option<&String>, start_menu: &str) -> (r: Result<(), LibError>)
    requires
        old(fs).inv(),
    ensures
        final(fs).inv(),
        r is Ok,
        !final(fs).tree_used(install_root@),
{
    match app_name {
        Some(name) => {
            match crate::paths::shortcut_path(start_menu, name.as_str()) {
                Ok(lnk) => {
                    fs.remove_file(lnk.as_str());
                },
                Err(_) => {},
            }
            let un = crate::strutil::concat2("Uninstall ", name.as_str());
            match crate::paths::shortcut_path(start_menu, un.as_str()) {
                Ok(lnk) => {
                    fs.remove_file(lnk.as_str());
                },
                Err(_) => {},
            }
        },
        None => {},
    }
    fs.remove_tree(install_root);
    proof {
        assert(!fs.tree_used(install_root@)) by {
            if fs.tree_used(install_root@) {
                let p = choose|p: Seq<char>|
                    #[trigger] in_tree(install_root@, p) && fs.node_exists(p);
            }
        }
    }
    Ok(())
}
} // verus!







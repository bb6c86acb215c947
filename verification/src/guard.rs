//! The single-instance guard: a process-wide named lock derived from
//! the application identity. A second process that finds the lock held
//! acquires nothing, changes nothing, and simply bows out.

use vstd::prelude::*;
use vstd::string::*;
use crate::strutil::{chars_to_string, str_eq, trim, trim_spec};

verus! {

/// One character of the sanitized lock name.
pub open spec fn mutex_char(c: char) -> char {
    if ('a' <= c <= 'z') || ('A' <= c <= 'Z') || ('0' <= c <= '9') || c == '.' || c == '-' {
        c
    } else {
        '_'
    }
}

/// The process-wide lock name: a fixed prefix and the sanitized
/// application identity — the explicit id, else the product name,
/// else the plain name.
pub open spec fn mutex_name_spec(app_id: Seq<char>, product_name: Seq<char>, name: Seq<char>) -> Seq<char> {
    let base = if trim_spec(app_id).len() > 0 {
        trim_spec(app_id)
    } else if trim_spec(product_name).len() > 0 {
        product_name
    } else {
        name
    };
    "Local\\Uvessel-"@ + base.map_values(|c: char| mutex_char(c))
}

/// Derives the lock name from the application identity.
pub fn mutex_name(app_id: &str, product_name: &str, name: &str) -> (r: String)
    ensures
        r@ == mutex_name_spec(app_id@, product_name@, name@),
{
    let id = trim(app_id);
    let base: String = if id.unicode_len() > 0 {
        id
    } else {
        let p = trim(product_name);
        if p.unicode_len() > 0 {
            product_name.to_owned()
        } else {
            name.to_owned()
        }
    };
    let n = base.as_str().unicode_len();
    let mut out: Vec<char> = Vec::new();
    let mut i: usize = 0;
    while i < n
        invariant
            i <= n,
            n == base@.len(),
            out@ == base@.subrange(0, i as int).map_values(|c: char| mutex_char(c)),
        decreases n - i,
    {
        let c = base.as_str().get_char(i);
        let mc: char = if ('a' <= c && c <= 'z') || ('A' <= c && c <= 'Z') || ('0' <= c && c
            <= '9') || c == '.' || c == '-' {
            c
        } else {
            '_'
        };
        out.push(mc);
        proof {
            assert(out@ =~= base@.subrange(0, i + 1).map_values(|c: char| mutex_char(c)));
        }
        i += 1;
    }
    proof {
        assert(base@.subrange(0, n as int) =~= base@);
    }
    let cleaned = chars_to_string(&out);
    crate::strutil::concat2("Local\\Uvessel-", cleaned.as_str())
}

/// The process-wide named locks currently held on the machine.
pub struct LockTable {
    held: Vec<String>,
}

impl LockTable {
    pub closed spec fn holds(self, name: Seq<char>) -> bool {
        exists|i: int| 0 <= i < self.held@.len() && self.held@[i]@ == name
    }

    /// A machine with no lock held.
    pub fn new() -> (r: LockTable)
        ensures
            forall|n: Seq<char>| !r.holds(n),
    {
        LockTable { held: Vec::new() }
    }

    /// Tries to take the named lock. While another live process holds
    /// it, nothing is acquired and nothing changes — the second
    /// instance exits at once with no side effects.
    pub fn acquire(&mut self, name: &str) -> (r: bool)
        ensures
            r == !old(self).holds(name@),
            old(self).holds(name@) ==> *final(self) == *old(self),
            !old(self).holds(name@) ==> final(self).holds(name@) && (forall|n: Seq<char>|
                n != name@ ==> final(self).holds(n) == old(self).holds(n)),
    {
        let n = self.held.len();
        let mut i: usize = 0;
        while i < n
            invariant
                i <= n,
                n == self.held@.len(),
                forall|j: int| 0 <= j < i ==> self.held@[j]@ != name@,
            decreases n - i,
        {
            if str_eq(self.held[i].as_str(), name) {
                proof {
                    assert(self.holds(name@));
                }
                return false;
            }
            i += 1;
        }
        let ghost pre = self.held@;
        self.held.push(name.to_owned());
        proof {
            assert(self.held@[pre.len() as int]@ == name@);
            assert forall|m: Seq<char>| m != name@ implies self.holds(m) == old(self).holds(m) by {
                if old(self).holds(m) {
                    let j = choose|j: int| 0 <= j < pre.len() && pre[j]@ == m;
                    assert(self.held@[j]@ == m);
                }
                if self.holds(m) {
                    let j = choose|j: int| 0 <= j < self.held@.len() && self.held@[j]@ == m;
                    assert(j < pre.len());
                    assert(pre[j]@ == m);
                }
            }
        }
        true
    }

    /// Releases the named lock, as process exit does for its holder.
    pub fn release(&mut self, name: &str)
        ensures
            !final(self).holds(name@),
            forall|n: Seq<char>| n != name@ ==> final(self).holds(n) == old(self).holds(n),
    {
        let n = self.held.len();
        let mut i: usize = 0;
        let mut out: Vec<String> = Vec::new();
        while i < n
            invariant
                i <= n,
                n == self.held@.len(),
                forall|k: int| 0 <= k < out@.len() ==> (#[trigger] out@[k])@ != name@,
                forall|k: int|
                    0 <= k < out@.len() ==> exists|j: int|
                        0 <= j < i && (#[trigger] out@[k])@ == self.held@[j]@,
                forall|j: int|
                    0 <= j < i && (#[trigger] self.held@[j])@ != name@ ==> exists|k: int|
                        0 <= k < out@.len() && out@[k]@ == self.held@[j]@,
            decreases n - i,
        {
            if !str_eq(self.held[i].as_str(), name) {
                let ghost preout = out@;
                out.push(self.held[i].clone());
                proof {
                    assert(out@[preout.len() as int]@ == self.held@[i as int]@);
                    assert forall|j: int|
                        0 <= j < i + 1 && (#[trigger] self.held@[j])@ != name@ implies exists|
                        k: int,
                    |
                        0 <= k < out@.len() && out@[k]@ == self.held@[j]@ by {
                        if j < i {
                            let k = choose|k: int|
                                0 <= k < preout.len() && (#[trigger] preout[k])@
                                    == self.held@[j]@;
                            assert(out@[k]@ == self.held@[j]@);
                        } else {
                            assert(out@[preout.len() as int]@ == self.held@[j]@);
                        }
                    }
                }
            }
            i += 1;
        }
        let ghost pre = self.held@;
        self.held = out;
        proof {
            assert(!self.holds(name@)) by {
                if self.holds(name@) {
                    let k = choose|k: int| 0 <= k < self.held@.len() && self.held@[k]@ == name@;
                    assert(self.held@[k]@ != name@);
                }
            }
            assert forall|m: Seq<char>| m != name@ implies self.holds(m) == seq_holds(pre, m) by {
                if seq_holds(pre, m) {
                    let j = choose|j: int| 0 <= j < pre.len() && pre[j]@ == m;
                    assert(pre[j]@ != name@);
                    let k = choose|k: int|
                        0 <= k < self.held@.len() && (#[trigger] self.held@[k])@ == pre[j]@;
                    assert(self.held@[k]@ == m);
                }
                if self.holds(m) {
                    let k = choose|k: int| 0 <= k < self.held@.len() && self.held@[k]@ == m;
                    let j = choose|j: int| 0 <= j < pre.len() && (#[trigger] self.held@[k])@ == pre[j]@;
                    assert(pre[j]@ == m);
                }
            }
            assert(old(self).held@ == pre);
        }
    }
}

spec fn seq_holds(s: Seq<String>, name: Seq<char>) -> bool {
    exists|i: int| 0 <= i < s.len() && s[i]@ == name
}

/// Acquires the single-instance lock for the application identity;
/// `false` means another instance is live and this process should exit
/// at once, having changed nothing.
pub fn acquire_single_instance(
    locks: &mut LockTable,
    app_id: &str,
    product_name: &str,
    name: &str,
) -> (r: bool)
    ensures
        r == !old(locks).holds(mutex_name_spec(app_id@, product_name@, name@)),
        !r ==> *final(locks) == *old(locks),
        r ==> final(locks).holds(mutex_name_spec(app_id@, product_name@, name@)),
{
    let mn = mutex_name(app_id, product_name, name);
    locks.acquire(mn.as_str())
}

} // verus!

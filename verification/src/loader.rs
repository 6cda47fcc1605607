//! The apps table: the bundle of named ELF images linked into the kernel.
//!
//! `get_app_data_by_name` is a linear lookup by name; `exec` resolves user
//! paths through it.  Every registered image has passed the ELF validator,
//! so the loader's preconditions hold for whatever the table returns.

use vstd::prelude::*;

use crate::elf;

verus! {

/// One bundled application: its name and its ELF image.
pub struct App {
    pub name: Vec<u8>,
    pub data: Vec<u8>,
}

/// The table of bundled applications.
pub struct AppTable {
    pub apps: Vec<App>,
}

/// Index of the first entry named `name`.
pub open spec fn spec_find_app(apps: Seq<App>, name: Seq<u8>) -> Option<int>
    decreases apps.len(),
{
    if apps.len() == 0 {
        None
    } else if apps[0].name@ == name {
        Some(0)
    } else {
        match spec_find_app(apps.skip(1), name) {
            Some(i) => Some(i + 1),
            None => None,
        }
    }
}

pub fn bytes_equal(a: &Vec<u8>, b: &Vec<u8>) -> (r: bool)
    ensures
        r == (a@ == b@),
{
    if a.len() != b.len() {
        proof {
            assert(a@.len() != b@.len());
        }
        return false;
    }
    let n = a.len();
    let mut i: usize = 0;
    while i < n
        invariant
            n == a@.len() == b@.len(),
            i <= n,
            forall|j: int| 0 <= j < i ==> a@[j] == b@[j],
        decreases n - i,
    {
        if a[i] != b[i] {
            return false;
        }
        i = i + 1;
    }
    proof {
        assert(a@ =~= b@);
    }
    true
}

impl AppTable {
    /// Every bundled image is a valid ELF.
    pub open spec fn wf(self) -> bool {
        forall|i: int|
            0 <= i < self.apps@.len() ==> elf::valid_elf((#[trigger] self.apps@[i]).data@)
    }

    pub fn new() -> (r: Self)
        ensures
            r.wf(),
            r.apps@.len() == 0,
    {
        AppTable { apps: Vec::new() }
    }

    /// Registers an image under a name, refusing one the loader could not
    /// honour; reports whether it was taken.
    pub fn add_app(&mut self, name: Vec<u8>, data: Vec<u8>) -> (ok: bool)
        requires
            old(self).wf(),
        ensures
            final(self).wf(),
            ok == elf::valid_elf(data@),
            ok ==> final(self).apps@.len() == old(self).apps@.len() + 1,
            ok ==> (final(self).apps@.last().name@ == name@ && final(self).apps@.last().data@
                == data@),
            ok ==> forall|i: int|
                0 <= i < old(self).apps@.len() ==> final(self).apps@[i] == old(self).apps@[i],
            !ok ==> final(self).apps@ =~= old(self).apps@,
    {
        if elf::validate_elf(&data) {
            self.apps.push(App { name, data });
            true
        } else {
            false
        }
    }

    /// Looks an image up by name: the first entry with that name, if any.
    pub fn get_app_data_by_name(&self, name: &Vec<u8>) -> (r: Option<&Vec<u8>>)
        ensures
            match spec_find_app(self.apps@, name@) {
                Some(i) => r is Some && *r.unwrap() == self.apps@[i].data,
                None => r is None,
            },
    {
        let n = self.apps.len();
        let mut i: usize = 0;
        while i < n
            invariant
                n == self.apps@.len(),
                i <= n,
                forall|j: int| 0 <= j < i ==> (#[trigger] self.apps@[j]).name@ != name@,
            decreases n - i,
        {
            if bytes_equal(&self.apps[i].name, name) {
                proof {
                    lemma_find_app_at(self.apps@, name@, i as int);
                }
                return Some(&self.apps[i].data);
            }
            i = i + 1;
        }
        proof {
            lemma_find_app_none(self.apps@, name@);
        }
        None
    }
}

/// A successful lookup names an entry of the table that carries the name.
pub proof fn lemma_find_app_in_range(apps: Seq<App>, name: Seq<u8>)
    requires
        spec_find_app(apps, name) is Some,
    ensures
        0 <= spec_find_app(apps, name).unwrap() < apps.len(),
        apps[spec_find_app(apps, name).unwrap()].name@ == name,
    decreases apps.len(),
{
    if apps.len() > 0 && apps[0].name@ != name {
        lemma_find_app_in_range(apps.skip(1), name);
    }
}

/// If the first `i` entries miss and entry `i` matches, the lookup finds
/// exactly entry `i`.
proof fn lemma_find_app_at(apps: Seq<App>, name: Seq<u8>, i: int)
    requires
        0 <= i < apps.len(),
        apps[i].name@ == name,
        forall|j: int| 0 <= j < i ==> (#[trigger] apps[j]).name@ != name,
    ensures
        spec_find_app(apps, name) == Some(i),
    decreases i,
{
    if i > 0 {
        lemma_find_app_at(apps.skip(1), name, i - 1);
    }
}

/// If no entry matches, the lookup misses.
proof fn lemma_find_app_none(apps: Seq<App>, name: Seq<u8>)
    requires
        forall|j: int| 0 <= j < apps.len() ==> (#[trigger] apps[j]).name@ != name,
    ensures
        spec_find_app(apps, name) is None,
    decreases apps.len(),
{
    if apps.len() > 0 {
        lemma_find_app_none(apps.skip(1), name);
    }
}

} // verus!

//! The application's configuration: the presence probes by name, the access
//! to the time-tracking service and the expected working time per day.

use vstd::prelude::*;

verus! {

/// The name of the database file in the data directory.
pub const DATABASE_FILE_NAME: &'static str = "paperwork.db";

/// The expected working time of a day without a stored expectation, unless
/// configured otherwise: eight hours.
pub const DEFAULT_EXPECTED_DURATION_SECONDS: i64 = 28_800;

/// A display color of a probe.
#[derive(Clone, Copy, Debug, PartialEq, Eq, Structural)]
pub enum Color {
    Black,
    Blue,
    Green,
    Red,
    Cyan,
    Magenta,
    Yellow,
    White,
}

/// A presence probe: a shell command whose success means presence.
#[derive(Clone, Debug, PartialEq, Eq)]
pub struct Probe {
    pub color: Option<Color>,
    pub command: String,
}

/// The credentials of the time-tracking service.
#[derive(Clone, Debug, PartialEq, Eq)]
pub struct Toggl {
    pub username: String,
    pub password: String,
}

/// The working-time policy.
#[derive(Clone, Copy, Debug, PartialEq, Eq, Structural)]
pub struct Workweek {
    pub default_expected_duration_seconds: i64,
}

/// The application's configuration. The probes are a list of named probes in
/// which each name occurs once, so that adding and removing one can be stated
/// over the list and proved.
#[derive(Clone, Debug, PartialEq, Eq)]
pub struct ApplicationConfig {
    pub probes: Vec<(String, Probe)>,
    pub toggl: Option<Toggl>,
    pub workweek: Workweek,
}

/// Whether no two probes share a name.
pub open spec fn probe_names_unique(s: Seq<(String, Probe)>) -> bool {
    forall|i: int, j: int| 0 <= i < s.len() && 0 <= j < s.len() && i != j ==> s[i].0@ != s[j].0@
}

/// The probe named `name`, if any.
pub open spec fn find_probe(s: Seq<(String, Probe)>, name: Seq<char>) -> Option<Probe> {
    if exists|i: int| 0 <= i < s.len() && #[trigger] s[i].0@ == name {
        Some(s[choose|i: int| 0 <= i < s.len() && #[trigger] s[i].0@ == name].1)
    } else {
        None
    }
}

/// With unique names, the probe found under a stored name is the stored one.
proof fn lemma_find_probe(s: Seq<(String, Probe)>, i: int)
    requires
        probe_names_unique(s),
        0 <= i < s.len(),
    ensures
        find_probe(s, s[i].0@) == Some(s[i].1),
{
    let c = choose|c: int| 0 <= c < s.len() && #[trigger] s[c].0@ == s[i].0@;
    if c != i {
        assert(s[c].0@ != s[i].0@);
    }
}

/// The path of the file `name` in the directory `dir`.
pub open spec fn joined_path(dir: Seq<char>, name: Seq<char>) -> Seq<char> {
    if dir.len() == 0 {
        name
    } else if dir.last() == '/' {
        dir + name
    } else {
        dir + seq!['/'] + name
    }
}

/// Whether a name-indexed lookup agrees with `old` except at `name`, where
/// it gives `at_name`.
pub open spec fn probes_changed_at(
    new: Seq<(String, Probe)>,
    old: Seq<(String, Probe)>,
    name: Seq<char>,
    at_name: Option<Probe>,
) -> bool {
    &&& probe_names_unique(new)
    &&& find_probe(new, name) == at_name
    &&& forall|n: Seq<char>| n != name ==> #[trigger] find_probe(new, n) == find_probe(old, n)
}

impl ApplicationConfig {
    /// Whether each probe name occurs once.
    pub open spec fn wf(&self) -> bool {
        probe_names_unique(self.probes@)
    }

    /// The index of the probe `name`, or the number of probes if there is
    /// none.
    fn probe_index(&self, name: &String) -> (r: usize)
        ensures
            r <= self.probes@.len(),
            r < self.probes@.len() ==> self.probes@[r as int].0@ == name@,
            r == self.probes@.len() ==> forall|j: int|
                0 <= j < self.probes@.len() ==> (#[trigger] self.probes@[j]).0@ != name@,
    {
        let n = self.probes.len();
        for i in 0..n
            invariant
                n == self.probes@.len(),
                forall|j: int| 0 <= j < i ==> (#[trigger] self.probes@[j]).0@ != name@,
        {
            if self.probes[i].0 == *name {
                return i;
            }
        }
        n
    }

    /// Adds the probe `name` running `command`, without a color; a probe of
    /// that name is replaced.
    pub fn add_probe(&mut self, name: String, command: String)
        requires
            old(self).wf(),
        ensures
            probes_changed_at(
                final(self).probes@,
                old(self).probes@,
                name@,
                Some(Probe { color: None, command }),
            ),
            final(self).toggl == old(self).toggl,
            final(self).workweek == old(self).workweek,
    {
        let ghost s = self.probes@;
        let n = self.probes.len();
        let i = self.probe_index(&name);
        let entry = (name, Probe { color: None, command });
        if i < n {
            self.probes.set(i, entry);
        } else {
            self.probes.push(entry);
        }
        proof {
            let t = self.probes@;
            assert(probe_names_unique(t)) by {
                assert forall|a: int, b: int|
                    0 <= a < t.len() && 0 <= b < t.len() && a != b implies t[a].0@ != t[b].0@ by {
                    if a != i && b != i {
                        assert(t[a] == s[a]);
                        assert(t[b] == s[b]);
                        assert(s[a].0@ != s[b].0@);
                    } else if a == i {
                        assert(t[b] == s[b]);
                        if i < n {
                            assert(s[b].0@ != s[i as int].0@);
                        }
                    } else {
                        assert(t[a] == s[a]);
                        if i < n {
                            assert(s[a].0@ != s[i as int].0@);
                        }
                    }
                }
            }
            lemma_find_probe(t, i as int);
            assert forall|m: Seq<char>| m != name@ implies #[trigger] find_probe(t, m) == find_probe(
                s,
                m,
            ) by {
                if exists|j: int| 0 <= j < t.len() && #[trigger] t[j].0@ == m {
                    let j = choose|j: int| 0 <= j < t.len() && #[trigger] t[j].0@ == m;
                    assert(j != i);
                    assert(t[j] == s[j]);
                    lemma_find_probe(t, j);
                    lemma_find_probe(s, j);
                } else {
                    assert forall|j: int| 0 <= j < s.len() implies #[trigger] s[j].0@ != m by {
                        if j != i {
                            assert(t[j] == s[j]);
                        } else {
                            assert(s[j].0@ == name@);
                        }
                    }
                }
            }
        }
    }

    /// Removes the probe `name`, if there is one.
    pub fn remove_probe(&mut self, name: String)
        requires
            old(self).wf(),
        ensures
            probes_changed_at(final(self).probes@, old(self).probes@, name@, None),
            final(self).toggl == old(self).toggl,
            final(self).workweek == old(self).workweek,
    {
        let ghost s = self.probes@;
        let n = self.probes.len();
        let i = self.probe_index(&name);
        if i < n {
            self.probes.remove(i);
            proof {
                let t = self.probes@;
                s.remove_ensures(i as int);
                assert forall|a: int, b: int|
                    0 <= a < t.len() && 0 <= b < t.len() && a != b implies t[a].0@
                    != t[b].0@ by {
                    let sa = if a < i { a } else { a + 1 };
                    let sb = if b < i { b } else { b + 1 };
                    assert(t[a] == s[sa]);
                    assert(t[b] == s[sb]);
                    assert(s[sa].0@ != s[sb].0@);
                }
                assert forall|j: int| 0 <= j < t.len() implies #[trigger] t[j].0@ != name@ by {
                    let sj = if j < i { j } else { j + 1 };
                    assert(t[j] == s[sj]);
                    if sj != i {
                        assert(s[sj].0@ != s[i as int].0@);
                    }
                }
                assert forall|m: Seq<char>| m != name@ implies #[trigger] find_probe(t, m)
                    == find_probe(s, m) by {
                    if exists|j: int| 0 <= j < t.len() && #[trigger] t[j].0@ == m {
                        let j = choose|j: int| 0 <= j < t.len() && #[trigger] t[j].0@ == m;
                        let sj = if j < i { j } else { j + 1 };
                        assert(t[j] == s[sj]);
                        lemma_find_probe(t, j);
                        lemma_find_probe(s, sj);
                    } else {
                        assert forall|k: int| 0 <= k < s.len() implies #[trigger] s[k].0@
                            != m by {
                            if k < i {
                                assert(t[k] == s[k]);
                            } else if k > i {
                                assert(t[k - 1] == s[k]);
                            }
                        }
                    }
                }
            }
        }
    }

    /// The path of the database file in the data directory `data_dir`.
    pub fn database_path(&self, data_dir: &str) -> (r: String)
        ensures
            r@ == joined_path(data_dir@, DATABASE_FILE_NAME@),
    {
        let mut path = String::from_str(data_dir);
        let len = data_dir.unicode_len();
        if len > 0 && data_dir.get_char(len - 1) != '/' {
            path.append("/");
        }
        path.append(DATABASE_FILE_NAME);
        proof {
            reveal_strlit("/");
            if len == 0 {
                assert(path@ =~= joined_path(data_dir@, DATABASE_FILE_NAME@));
            } else {
                assert(data_dir@.last() == data_dir@[len - 1]);
                assert(path@ =~= joined_path(data_dir@, DATABASE_FILE_NAME@));
            }
        }
        path
    }
}

impl Default for ApplicationConfig {
    fn default() -> (r: ApplicationConfig)
        ensures
            r.probes@.len() == 0,
            r.toggl is None,
            r.workweek.default_expected_duration_seconds == DEFAULT_EXPECTED_DURATION_SECONDS,
    {
        ApplicationConfig {
            probes: Vec::new(),
            toggl: None,
            workweek: Workweek { default_expected_duration_seconds: DEFAULT_EXPECTED_DURATION_SECONDS },
        }
    }
}

} // verus!

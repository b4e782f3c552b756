//! On-demand process enrichment against the live OS process table and
//! user database.
//!
//! Lookup results depend on the state of the machine at the moment of the
//! call, so the trusted declarations below promise nothing about the values
//! that come back; the verified code is the assembly and rendering around
//! them.  A pid that no longer exists reports "not found", not an error.

use vstd::prelude::*;

verus! {

#[verifier::external_type_specification]
#[verifier::external_body]
pub struct ExSystem(sysinfo::System);

#[verifier::external_type_specification]
#[verifier::external_body]
pub struct ExUsers(sysinfo::Users);

#[verifier::external_type_specification]
#[verifier::external_body]
pub struct ExProcess(sysinfo::Process);

#[verifier::external_type_specification]
#[verifier::external_body]
pub struct ExUser(sysinfo::User);

/// Relies on `sysinfo::System::new_all`: builds a system snapshot with all
/// information refreshed once.
#[verifier::external_body]
fn system_new_all() -> sysinfo::System {
    sysinfo::System::new_all()
}

/// Relies on `sysinfo::System::refresh_all`: refreshes the snapshot from
/// the live process table.
#[verifier::external_body]
fn system_refresh_all(s: &mut sysinfo::System) {
    s.refresh_all();
}

/// Relies on `sysinfo::Users::new`: builds an empty user list.
#[verifier::external_body]
fn users_new() -> sysinfo::Users {
    sysinfo::Users::new()
}

/// Relies on `sysinfo::Users::refresh`: reloads the user list from the
/// user database.
#[verifier::external_body]
fn users_refresh(u: &mut sysinfo::Users) {
    u.refresh();
}

/// Relies on `sysinfo::System::process`: looks a live process up by pid;
/// absent (already exited) pids yield `None`.
#[verifier::external_body]
fn system_find_process(s: &sysinfo::System, pid: usize) -> Option<&sysinfo::Process> {
    s.process(sysinfo::Pid::from(pid))
}

/// Relies on `sysinfo::Process::cwd`: the process's working directory, if
/// known, converted to text.
#[verifier::external_body]
fn process_cwd(p: &sysinfo::Process) -> Option<String> {
    p.cwd().map(|c| c.to_string_lossy().to_string())
}

/// Relies on `sysinfo::Process::user_id`: the owning user id, if known.
#[verifier::external_body]
fn process_user_uid(p: &sysinfo::Process) -> Option<usize> {
    p.user_id().map(|u| **u as usize)
}

/// Relies on `sysinfo::Process::environ`: the process's environment,
/// converted to text.
#[verifier::external_body]
fn process_environ(p: &sysinfo::Process) -> Vec<String> {
    p.environ().iter().map(|s| s.to_string_lossy().to_string()).collect()
}

/// Relies on `sysinfo::Users::get_user_by_id`: the name of the user with
/// this id, or `None` when the id is out of range for the platform or
/// unknown to the user database.
#[verifier::external_body]
fn users_get_name(u: &sysinfo::Users, uid: usize) -> Option<String> {
    let uid = sysinfo::Uid::try_from(uid).ok()?;
    u.get_user_by_id(&uid).map(|user| user.name().to_string())
}

/// Live process metadata looked up for one pid: what the captured event
/// itself does not carry.
#[derive(Debug)]
pub struct RenderedProcess {
    pub cwd: Option<String>,
    pub user: String,
    pub env: Vec<String>,
}

/// The texts of `vs` joined with single spaces.
pub open spec fn joined_text(vs: Seq<String>) -> Seq<char>
    decreases vs.len(),
{
    if vs.len() == 0 {
        Seq::empty()
    } else if vs.len() == 1 {
        vs[0]@
    } else {
        vs[0]@ + seq![' '] + joined_text(vs.drop_first())
    }
}

proof fn lemma_joined_take_succ(vs: Seq<String>, i: int)
    requires
        1 <= i < vs.len(),
    ensures
        joined_text(vs.take(i + 1)) == joined_text(vs.take(i)) + seq![' '] + vs[i]@,
    decreases i,
{
    if i == 1 {
        assert(vs.take(2)[0] == vs[0]);
        assert(vs.take(2).drop_first() =~= vs.subrange(1, 2));
        assert(vs.subrange(1, 2)[0] == vs[1]);
        assert(vs.subrange(1, 2).len() == 1);
        assert(vs.take(1)[0] == vs[0]);
        assert(vs.take(1).len() == 1);
        assert(vs.take(2).len() == 2);
        assert(joined_text(vs.subrange(1, 2)) == vs.subrange(1, 2)[0]@);
        assert(joined_text(vs.take(2)) == vs.take(2)[0]@ + seq![' '] + joined_text(
            vs.take(2).drop_first(),
        ));
        assert(joined_text(vs.take(2)) == vs[0]@ + seq![' '] + vs[1]@);
        assert(joined_text(vs.take(1)) == vs[0]@);
    } else {
        let t = vs.drop_first();
        lemma_joined_take_succ(t, i - 1);
        assert(vs.take(i + 1)[0] == vs[0]);
        assert(vs.take(i)[0] == vs[0]);
        assert(vs.take(i + 1).drop_first() =~= t.take(i));
        assert(vs.take(i).drop_first() =~= t.take(i - 1));
        assert(t[i - 1] == vs[i]);
        assert(vs.take(i + 1).len() == i + 1);
        assert(vs.take(i).len() == i);
        assert(joined_text(vs.take(i + 1)) == vs[0]@ + seq![' '] + joined_text(t.take(i)));
        assert(joined_text(vs.take(i)) == vs[0]@ + seq![' '] + joined_text(t.take(i - 1)));
        assert(vs[0]@ + seq![' '] + (joined_text(t.take(i - 1)) + seq![' '] + vs[i]@) =~= (
        vs[0]@ + seq![' '] + joined_text(t.take(i - 1))) + seq![' '] + vs[i]@);
    }
}

/// Join texts with single spaces.
pub fn join_with_spaces(vs: &Vec<String>) -> (r: String)
    ensures
        r@ == joined_text(vs@),
{
    let mut r = String::new();
    let mut i: usize = 0;
    while i < vs.len()
        invariant
            i <= vs@.len(),
            r@ == joined_text(vs@.take(i as int)),
        decreases vs@.len() - i,
    {
        if i > 0 {
            r.append(" ");
            proof {
                reveal_strlit(" ");
            }
        }
        r.append(vs[i].as_str());
        proof {
            if i == 0 {
                assert(vs@.take(1)[0] == vs@[0]);
                assert(vs@.take(1).len() == 1);
                assert(joined_text(vs@.take(1)) == vs@[0]@);
            } else {
                lemma_joined_take_succ(vs@, i as int);
            }
        }
        i = i + 1;
    }
    proof {
        assert(vs@.take(vs@.len() as int) =~= vs@);
    }
    r
}

/// The footer line a process lookup renders as:
/// `cwd: <dir>, user: <name>, env: <vars>`.
pub open spec fn rendered_process_text(p: RenderedProcess) -> Seq<char> {
    "cwd: "@ + (match p.cwd {
        Some(c) => c@,
        None => Seq::<char>::empty(),
    }) + ", user: "@ + p.user@ + ", env: "@ + joined_text(p.env@)
}

impl RenderedProcess {
    /// The metadata a text line in the dashboard footer shows:
    /// `cwd: <dir>, user: <name>, env: <vars>`.
    pub fn render_text(&self) -> (r: String)
        ensures
            r@ == rendered_process_text(*self),
    {
        let mut r = String::new();
        r.append("cwd: ");
        match &self.cwd {
            Some(c) => {
                r.append(c.as_str());
            },
            None => {},
        }
        r.append(", user: ");
        r.append(self.user.as_str());
        r.append(", env: ");
        let env = join_with_spaces(&self.env);
        r.append(env.as_str());
        proof {
            assert(r@ =~= rendered_process_text(*self));
        }
        r
    }
}

/// The display form of an optional user name: a process whose owner the
/// user database does not know shows an empty name.
fn name_or_empty(name: Option<String>) -> (r: String)
    ensures
        r@ == (match name {
            Some(n) => n@,
            None => Seq::<char>::empty(),
        }),
{
    match name {
        Some(n) => n,
        None => String::new(),
    }
}

/// The enricher: a system snapshot and a user list queried on demand.
/// Interactive use only — no caching beyond the snapshots themselves.
pub struct ProcessService {
    system: sysinfo::System,
    users: sysinfo::Users,
}

impl ProcessService {
    /// Build the snapshots and refresh them once.
    pub fn new() -> ProcessService {
        let mut ret = ProcessService { system: system_new_all(), users: users_new() };
        ret.update();
        ret
    }

    fn update(&mut self) {
        system_refresh_all(&mut self.system);
        users_refresh(&mut self.users);
    }

    /// Look one pid up in the process table: its working directory, owning
    /// user name and environment.  An absent pid (already exited) reports
    /// "not found" as `None`, never an error.
    pub fn get_process(&self, pid: usize) -> Option<RenderedProcess> {
        let p = match system_find_process(&self.system, pid) {
            Some(p) => p,
            None => {
                return None;
            },
        };
        let cwd = process_cwd(p);
        let name = match process_user_uid(p) {
            Some(uid) => users_get_name(&self.users, uid),
            None => None,
        };
        let user = name_or_empty(name);
        let env = process_environ(p);
        Some(RenderedProcess { cwd, user, env })
    }

    /// The name of the user with this id, or `None` when it is unknown.
    pub fn get_user_by_id(&self, uid: usize) -> Option<String> {
        users_get_name(&self.users, uid)
    }
}

} // verus!

//! The PTY session registry: owns the live sessions keyed by id, spawns a
//! shell on a fresh PTY with an ordered candidate fallback, starts one output
//! relay per session, and routes `write` calls to the session's exclusive
//! write handle. Each session carries a ghost token, fresh per spawn, so the
//! contracts can say which session a registry entry denotes: respawning an id
//! replaces its entry with a fresh-token session.

use vstd::prelude::*;
use vstd::string::StringExecFns;
use crate::relay::PtyReader;
use crate::shell::{Candidate, args_view, console_candidates, posix_candidate};
use crate::text::str_eq;

verus! {

#[verifier::external_type_specification]
#[verifier::external_body]
pub struct ExPtyPair(portable_pty::PtyPair);

#[verifier::external_type_specification]
#[verifier::external_body]
pub struct ExCommandBuilder(portable_pty::CommandBuilder);

/// The argv a command builder holds: the program first, then its arguments.
pub uninterp spec fn cmd_argv(c: portable_pty::CommandBuilder) -> Seq<Seq<char>>;

/// The environment overrides recorded on a command builder, by key.
pub uninterp spec fn cmd_env_overrides(c: portable_pty::CommandBuilder) -> Map<Seq<char>, Seq<char>>;

/// The writable end of a PTY, held opaquely: the underlying handle is a
/// boxed writer that the verifier cannot model.
#[verifier::external_body]
pub struct PtyWriter {
    pub(crate) inner: Box<dyn std::io::Write + Send>,
}

/// Why a registry operation failed.
#[derive(Debug)]
pub enum PtyError {
    /// `write` targeted an id with no registry entry; carries that id.
    NotFound(String),
    /// The PTY device could not be opened or its handles not obtained.
    Alloc(String),
    /// No candidate shell could be launched; carries the last failure's
    /// rendering, or a fixed message when no attempt was made.
    Launch(String),
    /// The write or flush to the session's pipe failed.
    Io(String),
}

/// The rendering of each error.
pub open spec fn error_message_spec(e: PtyError) -> Seq<char> {
    match e {
        PtyError::NotFound(id) => "session "@ + id@ + " not found"@,
        PtyError::Alloc(m) => m@,
        PtyError::Launch(m) => m@,
        PtyError::Io(m) => m@,
    }
}

impl PtyError {
    /// A human-readable description of the failure.
    pub fn message(&self) -> (r: String)
        ensures
            r@ == error_message_spec(*self),
    {
        match self {
            PtyError::NotFound(id) => {
                let head: String = "session ".to_owned();
                head.concat(id.as_str()).concat(" not found")
            },
            PtyError::Alloc(m) => m.clone(),
            PtyError::Launch(m) => m.clone(),
            PtyError::Io(m) => m.clone(),
        }
    }
}

/// Relies on portable_pty::native_pty_system and PtySystem::openpty: opens a
/// fresh PTY pair of the given geometry, pixel dimensions left at zero.
/// Success depends on the platform, so nothing is promised of the outcome.
#[verifier::external_body]
fn open_pty(cols: u16, rows: u16) -> (r: Result<portable_pty::PtyPair, String>)
{
    let sys = portable_pty::native_pty_system();
    sys.openpty(portable_pty::PtySize { rows, cols, pixel_width: 0, pixel_height: 0 })
        .map_err(|e| e.to_string())
}

/// No environment overrides recorded on a command builder yet.
pub open spec fn no_overrides() -> Map<Seq<char>, Seq<char>> {
    Map::empty()
}

/// Relies on CommandBuilder::new: the argv starts as just the program, and
/// no environment override is recorded yet.
#[verifier::external_body]
fn new_command(program: &String) -> (c: portable_pty::CommandBuilder)
    ensures
        cmd_argv(c) == seq![program@],
        cmd_env_overrides(c) == no_overrides(),
{
    portable_pty::CommandBuilder::new(program.as_str())
}

/// Relies on CommandBuilder::arg: appends one argument to the argv and
/// leaves the environment overrides alone.
#[verifier::external_body]
fn push_arg(c: &mut portable_pty::CommandBuilder, arg: &String)
    ensures
        cmd_argv(*final(c)) == cmd_argv(*old(c)).push(arg@),
        cmd_env_overrides(*final(c)) == cmd_env_overrides(*old(c)),
{
    c.arg(arg.as_str());
}

/// Relies on CommandBuilder::env: records an environment override for the
/// key and leaves the argv alone.
#[verifier::external_body]
fn set_env(c: &mut portable_pty::CommandBuilder, key: &str, value: &str)
    ensures
        cmd_argv(*final(c)) == cmd_argv(*old(c)),
        cmd_env_overrides(*final(c)) == cmd_env_overrides(*old(c)).insert(key@, value@),
{
    c.env(key, value);
}

/// Relies on SlavePty::spawn_command: launches the built command as a child
/// of the PTY's slave side. Whether a program can be launched depends on the
/// machine, so nothing is promised of the outcome; on failure the error's
/// rendering is returned.
#[verifier::external_body]
fn spawn_on_slave(pair: &portable_pty::PtyPair, cmd: portable_pty::CommandBuilder) -> (r: Result<
    (),
    String,
>)
{
    match pair.slave.spawn_command(cmd) {
        Ok(child) => {
            drop(child);
            Ok(())
        },
        Err(e) => Err(e.to_string()),
    }
}

/// Relies on MasterPty::try_clone_reader: a readable handle onto the
/// session's output stream.
#[verifier::external_body]
fn clone_reader(pair: &portable_pty::PtyPair) -> (r: Result<PtyReader, String>)
{
    match pair.master.try_clone_reader() {
        Ok(rd) => Ok(PtyReader { inner: rd }),
        Err(e) => Err(e.to_string()),
    }
}

/// Relies on MasterPty::take_writer: the PTY's single exclusive write
/// handle; taking it more than once per PTY is invalid, and this is called
/// once per spawned session.
#[verifier::external_body]
fn take_writer(pair: &portable_pty::PtyPair) -> (r: Result<PtyWriter, String>)
{
    match pair.master.take_writer() {
        Ok(w) => Ok(PtyWriter { inner: w }),
        Err(e) => Err(e.to_string()),
    }
}

/// Relies on std::io::Write::write_all through the PTY writer: on success
/// the whole buffer was handed to the pipe.
#[verifier::external_body]
fn writer_write_all(w: &mut PtyWriter, data: &str) -> (r: Result<(), String>)
{
    w.inner.write_all(data.as_bytes()).map_err(|e| e.to_string())
}

/// Relies on std::io::Write::flush through the PTY writer.
#[verifier::external_body]
fn writer_flush(w: &mut PtyWriter) -> (r: Result<(), String>)
{
    w.inner.flush().map_err(|e| e.to_string())
}

/// Build the command for one candidate: its program, its arguments in
/// order, and the fixed 256-color terminal identifier as the TERM override.
fn build_command(c: &Candidate) -> (cmd: portable_pty::CommandBuilder)
    ensures
        cmd_argv(cmd) == seq![c.program@] + args_view(c.args@),
        cmd_env_overrides(cmd) == no_overrides().insert("TERM"@, "xterm-256color"@),
{
    let mut cmd = new_command(&c.program);
    proof {
        assert(seq![c.program@] + args_view(c.args@.take(0)) =~= seq![c.program@]);
    }
    let mut i: usize = 0;
    while i < c.args.len()
        invariant
            i <= c.args@.len(),
            cmd_argv(cmd) == seq![c.program@] + args_view(c.args@.take(i as int)),
            cmd_env_overrides(cmd) == no_overrides(),
        decreases c.args@.len() - i,
    {
        push_arg(&mut cmd, &c.args[i]);
        proof {
            assert(args_view(c.args@.take(i + 1))
                =~= args_view(c.args@.take(i as int)).push(c.args@[i as int]@));
            assert((seq![c.program@] + args_view(c.args@.take(i as int))).push(c.args@[i as int]@)
                =~= seq![c.program@] + args_view(c.args@.take(i + 1)));
        }
        i += 1;
    }
    proof {
        assert(c.args@.take(c.args@.len() as int) =~= c.args@);
    }
    set_env(&mut cmd, "TERM", "xterm-256color");
    cmd
}

/// Try each candidate in order; the first that launches wins. When every
/// attempt fails the error renders the most recent failure; when the list is
/// empty, a fixed message says no attempt was made.
fn try_candidates(pair: &portable_pty::PtyPair, candidates: &Vec<Candidate>) -> (r: Result<
    (),
    PtyError,
>)
    ensures
        r.is_ok() || (r matches Err(PtyError::Launch(_))),
        r.is_ok() ==> candidates@.len() > 0,
        candidates@.len() == 0 ==> (r matches Err(PtyError::Launch(m))
            && m@ == "no shell attempts were made"@),
{
    if candidates.len() == 0 {
        return Err(PtyError::Launch("no shell attempts were made".to_owned()));
    }
    let mut last_err: Option<String> = None;
    let mut i: usize = 0;
    while i < candidates.len()
        invariant
            i <= candidates@.len(),
        decreases candidates@.len() - i,
    {
        let cmd = build_command(&candidates[i]);
        match spawn_on_slave(pair, cmd) {
            Ok(()) => {
                return Ok(());
            },
            Err(m) => {
                let msg = candidates[i].program.clone().concat(" failed: ").concat(m.as_str());
                last_err = Some(msg);
            },
        }
        i += 1;
    }
    match last_err {
        Some(m) => Err(PtyError::Launch(m)),
        None => Err(PtyError::Launch("no shell attempts were made".to_owned())),
    }
}

/// One live session: its id, a ghost token fresh per spawn, and the PTY's
/// exclusive write handle.
struct Session {
    id: String,
    token: Ghost<nat>,
    writer: PtyWriter,
}

spec fn seq_has(s: Seq<Session>, id: Seq<char>) -> bool {
    exists|i: int| 0 <= i < s.len() && s[i].id@ == id
}

spec fn seq_idx(s: Seq<Session>, id: Seq<char>) -> int {
    choose|i: int| 0 <= i < s.len() && s[i].id@ == id
}

spec fn seq_token(s: Seq<Session>, id: Seq<char>) -> nat {
    s[seq_idx(s, id)].token@
}

spec fn unique_ids(s: Seq<Session>) -> bool {
    forall|i: int, j: int| 0 <= i < j < s.len() ==> s[i].id@ != s[j].id@
}

spec fn tokens_below(s: Seq<Session>, n: nat) -> bool {
    forall|i: int| 0 <= i < s.len() ==> s[i].token@ < n
}

proof fn lemma_remove_entry(s: Seq<Session>, i: int, id: Seq<char>)
    requires
        unique_ids(s),
        0 <= i < s.len(),
        s[i].id@ == id,
    ensures
        !seq_has(s.remove(i), id),
        unique_ids(s.remove(i)),
        forall|o: Seq<char>| o != id ==> seq_has(s.remove(i), o) == seq_has(s, o),
        forall|o: Seq<char>|
            o != id && seq_has(s, o) ==> seq_token(s.remove(i), o) == seq_token(s, o),
        forall|n: nat| tokens_below(s, n) ==> tokens_below(s.remove(i), n),
{
    let r = s.remove(i);
    assert forall|o: Seq<char>| o != id implies seq_has(r, o) == seq_has(s, o) by {
        if seq_has(s, o) {
            let k = choose|k: int| 0 <= k < s.len() && s[k].id@ == o;
            if k < i {
                assert(r[k] == s[k]);
            } else {
                assert(k > i);
                assert(r[k - 1] == s[k]);
            }
        }
        if seq_has(r, o) {
            let k = choose|k: int| 0 <= k < r.len() && r[k].id@ == o;
            if k < i {
                assert(s[k] == r[k]);
            } else {
                assert(s[k + 1] == r[k]);
            }
        }
    }
    if !seq_has(r, id) {
    } else {
        let k = choose|k: int| 0 <= k < r.len() && r[k].id@ == id;
        if k < i {
            assert(s[k] == r[k]);
            assert(s[k].id@ == s[i].id@);
            assert(false);
        } else {
            assert(s[k + 1] == r[k]);
            assert(false);
        }
    }
    assert forall|o: Seq<char>|
        o != id && seq_has(s, o) implies seq_token(r, o) == seq_token(s, o) by {
        let ks = seq_idx(s, o);
        let kr = seq_idx(r, o);
        assert(0 <= ks < s.len() && s[ks].id@ == o);
        assert(seq_has(r, o));
        assert(0 <= kr < r.len() && r[kr].id@ == o);
        if kr < i {
            assert(r[kr] == s[kr]);
            assert(s[kr].id@ == o && s[ks].id@ == o);
            assert(kr == ks);
        } else {
            assert(r[kr] == s[kr + 1]);
            assert(s[kr + 1].id@ == o && s[ks].id@ == o);
            assert(kr + 1 == ks);
        }
    }
}

proof fn lemma_push_entry(s: Seq<Session>, x: Session)
    requires
        unique_ids(s),
        !seq_has(s, x.id@),
    ensures
        unique_ids(s.push(x)),
        seq_has(s.push(x), x.id@),
        seq_token(s.push(x), x.id@) == x.token@,
        forall|o: Seq<char>| o != x.id@ ==> seq_has(s.push(x), o) == seq_has(s, o),
        forall|o: Seq<char>|
            o != x.id@ && seq_has(s, o) ==> seq_token(s.push(x), o) == seq_token(s, o),
{
    let r = s.push(x);
    assert(r[s.len() as int] == x);
    assert(seq_has(r, x.id@));
    assert forall|o: Seq<char>| o != x.id@ implies seq_has(r, o) == seq_has(s, o) by {
        if seq_has(s, o) {
            let k = choose|k: int| 0 <= k < s.len() && s[k].id@ == o;
            assert(r[k] == s[k]);
        }
        if seq_has(r, o) {
            let k = choose|k: int| 0 <= k < r.len() && r[k].id@ == o;
            assert(k < s.len());
            assert(s[k] == r[k]);
        }
    }
    let kx = seq_idx(r, x.id@);
    assert(0 <= kx < r.len() && r[kx].id@ == x.id@);
    if kx < s.len() {
        assert(s[kx] == r[kx]);
        assert(false);
    }
    assert(seq_token(r, x.id@) == x.token@);
    assert forall|o: Seq<char>|
        o != x.id@ && seq_has(s, o) implies seq_token(r, o) == seq_token(s, o) by {
        let ks = seq_idx(s, o);
        let kr = seq_idx(r, o);
        assert(0 <= ks < s.len() && s[ks].id@ == o);
        assert(seq_has(r, o));
        assert(0 <= kr < r.len() && r[kr].id@ == o);
        assert(kr != s.len());
        assert(r[kr] == s[kr]);
        assert(kr == ks);
    }
}

/// The registry of live sessions, keyed by id. Entries are added or
/// overwritten by `spawn` and never removed; `write` routes to them.
pub struct PtyManager {
    sessions: Vec<Session>,
    next: Ghost<nat>,
}

/// A successful spawn installed a fresh session under `id` and touched
/// nothing else: the id now maps to the previously fresh token, the fresh
/// token advanced, and every other id keeps its entry.
pub open spec fn spawn_installed(pre: PtyManager, post: PtyManager, id: Seq<char>) -> bool {
    &&& post.has_id(id)
    &&& post.token_of(id) == pre.fresh_token()
    &&& post.fresh_token() == pre.fresh_token() + 1
    &&& forall|o: Seq<char>| o != id ==> post.has_id(o) == pre.has_id(o)
    &&& forall|o: Seq<char>| o != id && pre.has_id(o) ==> post.token_of(o) == pre.token_of(o)
}

impl PtyManager {
    /// The registry holds an entry for this id.
    pub closed spec fn has_id(self, id: Seq<char>) -> bool {
        seq_has(self.sessions@, id)
    }

    /// The ghost token of the session stored under this id: which spawn the
    /// entry came from.
    pub closed spec fn token_of(self, id: Seq<char>) -> nat {
        seq_token(self.sessions@, id)
    }

    /// The token the next successful spawn will hand out.
    pub closed spec fn fresh_token(self) -> nat {
        self.next@
    }

    /// How many entries the registry holds.
    pub closed spec fn session_count(self) -> nat {
        self.sessions@.len()
    }

    /// Well-formed: ids are unique and every stored token is older than the
    /// fresh one.
    pub closed spec fn wf(self) -> bool {
        unique_ids(self.sessions@) && tokens_below(self.sessions@, self.next@)
    }

    /// Registries that agree on every entry: same ids, same tokens, same
    /// fresh token.
    pub open spec fn same_sessions(self, other: PtyManager) -> bool {
        &&& self.fresh_token() == other.fresh_token()
        &&& forall|id: Seq<char>| self.has_id(id) == other.has_id(id)
        &&& forall|id: Seq<char>| other.has_id(id) ==> self.token_of(id) == other.token_of(id)
    }

    /// An empty registry.
    pub fn new() -> (m: PtyManager)
        ensures
            m.wf(),
            m.session_count() == 0,
            forall|id: Seq<char>| !m.has_id(id),
    {
        PtyManager { sessions: Vec::new(), next: Ghost(0nat) }
    }

    /// Spawn a session: open a PTY of the given geometry, try the candidate
    /// programs in order, and store the write handle under `id`, overwriting
    /// any prior entry. On success the PTY's read handle is returned for the
    /// caller to drive an output relay on a task of its own. On failure the
    /// registry is left exactly as it was. With an empty candidate list no
    /// attempt is made and the launch error says so.
    pub fn spawn_with_candidates(
        &mut self,
        id: String,
        cols: u16,
        rows: u16,
        candidates: Vec<Candidate>,
    ) -> (r: Result<PtyReader, PtyError>)
        requires
            old(self).wf(),
            cols > 0,
            rows > 0,
        ensures
            final(self).wf(),
            r.is_ok() ==> spawn_installed(*old(self), *final(self), id@),
            !r.is_ok() ==> *final(self) == *old(self),
            !r.is_ok() ==> (r matches Err(PtyError::Alloc(_)) || r matches Err(
                PtyError::Launch(_),
            )),
            candidates@.len() == 0 ==> !r.is_ok(),
            candidates@.len() == 0 ==> (r matches Err(PtyError::Launch(m)) ==> m@
                == "no shell attempts were made"@),
    {
        let pair = match open_pty(cols, rows) {
            Ok(p) => p,
            Err(m) => {
                return Err(PtyError::Alloc(m));
            },
        };
        match try_candidates(&pair, &candidates) {
            Ok(()) => {},
            Err(e) => {
                return Err(e);
            },
        }
        let reader = match clone_reader(&pair) {
            Ok(rd) => rd,
            Err(m) => {
                return Err(PtyError::Alloc(m));
            },
        };
        let writer = match take_writer(&pair) {
            Ok(w) => w,
            Err(m) => {
                return Err(PtyError::Alloc(m));
            },
        };
        // Overwrite: drop any prior entry for this id before storing the new
        // write handle.
        let ghost pre = self.sessions@;
        let n = self.sessions.len();
        let mut found: Option<usize> = None;
        let mut i: usize = 0;
        while i < n
            invariant
                n == self.sessions@.len(),
                i <= n,
                self.sessions@ == pre,
                found matches None ==> forall|j: int| 0 <= j < i ==> self.sessions@[j].id@ != id@,
                found matches Some(k) ==> 0 <= k < n && self.sessions@[k as int].id@ == id@,
            ensures
                n == self.sessions@.len(),
                self.sessions@ == pre,
                found matches None ==> forall|j: int| 0 <= j < n ==> self.sessions@[j].id@ != id@,
                found matches Some(k) ==> 0 <= k < n && self.sessions@[k as int].id@ == id@,
            decreases n - i,
        {
            if str_eq(self.sessions[i].id.as_str(), id.as_str()) {
                found = Some(i);
                break ;
            }
            i += 1;
        }
        match found {
            Some(k) => {
                proof {
                    lemma_remove_entry(pre, k as int, id@);
                }
                let _old_session = self.sessions.remove(k);
            },
            None => {},
        }
        proof {
            assert(!seq_has(self.sessions@, id@));
            assert(unique_ids(self.sessions@));
            assert(forall|n2: nat| tokens_below(pre, n2) ==> tokens_below(self.sessions@, n2));
            assert(forall|o: Seq<char>|
                o != id@ ==> seq_has(self.sessions@, o) == seq_has(pre, o));
            assert(forall|o: Seq<char>|
                o != id@ && seq_has(pre, o) ==> seq_token(self.sessions@, o) == seq_token(pre, o));
        }
        let token: Ghost<nat> = Ghost(self.next@);
        let session = Session { id, token, writer };
        proof {
            lemma_push_entry(self.sessions@, session);
        }
        self.sessions.push(session);
        self.next = Ghost(self.next@ + 1);
        Ok(reader)
    }

    /// Spawn a session for the given platform's shell selection: on
    /// POSIX-like platforms launch exactly the resolved shell (interactive
    /// when its name asks for it); on console-subsystem platforms run the
    /// ordered fallback chain.
    pub fn spawn(
        &mut self,
        id: String,
        cols: u16,
        rows: u16,
        shell: ShellChoice,
    ) -> (r: Result<PtyReader, PtyError>)
        requires
            old(self).wf(),
            cols > 0,
            rows > 0,
        ensures
            final(self).wf(),
            r.is_ok() ==> spawn_installed(*old(self), *final(self), id@),
            !r.is_ok() ==> *final(self) == *old(self),
    {
        let candidates: Vec<Candidate> = match shell {
            ShellChoice::Posix { shell_path } => {
                let mut v: Vec<Candidate> = Vec::new();
                v.push(posix_candidate(shell_path));
                v
            },
            ShellChoice::Console => console_candidates(),
        };
        self.spawn_with_candidates(id, cols, rows, candidates)
    }

    /// Send input bytes to the session stored under `id`: the whole buffer
    /// is written and flushed before returning. An id without an entry fails
    /// with the not-found error and changes nothing; a broken pipe surfaces
    /// as an I/O error, with the entry left in place.
    pub fn write(&mut self, id: &str, data: &str) -> (r: Result<(), PtyError>)
        requires
            old(self).wf(),
        ensures
            final(self).wf(),
            final(self).same_sessions(*old(self)),
            (r matches Err(PtyError::NotFound(_))) <==> !old(self).has_id(id@),
            r matches Err(PtyError::NotFound(missing)) ==> missing@ == id@,
            !old(self).has_id(id@) ==> *final(self) == *old(self),
            r.is_ok() || (r matches Err(PtyError::NotFound(_))) || (r matches Err(PtyError::Io(
                _,
            ))),
    {
        let ghost pre = self.sessions@;
        let n = self.sessions.len();
        let mut i: usize = 0;
        while i < n
            invariant
                n == self.sessions@.len(),
                i <= n,
                self.sessions@ == pre,
                old(self).wf(),
                *self == *old(self),
                forall|j: int| 0 <= j < i ==> self.sessions@[j].id@ != id@,
            decreases n - i,
        {
            if str_eq(self.sessions[i].id.as_str(), id) {
                proof {
                    lemma_remove_entry(pre, i as int, id@);
                }
                let mut session = self.sessions.remove(i);
                let first = writer_write_all(&mut session.writer, data);
                let outcome = match first {
                    Ok(()) => writer_flush(&mut session.writer),
                    Err(m) => Err(m),
                };
                proof {
                    lemma_push_entry(self.sessions@, session);
                }
                let ghost removed = self.sessions@;
                self.sessions.push(session);
                proof {
                    assert(seq_has(self.sessions@, id@));
                    assert(seq_token(self.sessions@, id@) == pre[i as int].token@);
                    assert(seq_has(pre, id@));
                    assert(seq_token(pre, id@) == pre[i as int].token@) by {
                        let k = seq_idx(pre, id@);
                        assert(0 <= k < pre.len() && pre[k].id@ == id@);
                        if k != i {
                            assert(false);
                        }
                    }
                    assert(forall|n2: nat|
                        tokens_below(pre, n2) ==> tokens_below(removed, n2));
                }
                return match outcome {
                    Ok(()) => Ok(()),
                    Err(m) => Err(PtyError::Io(m)),
                };
            }
            i += 1;
        }
        proof {
            assert(!seq_has(pre, id@));
        }
        Err(PtyError::NotFound(id.to_owned()))
    }

    /// How many entries the registry holds.
    pub fn len(&self) -> (n: usize)
        ensures
            n == self.session_count(),
    {
        self.sessions.len()
    }
}

impl Default for PtyManager {
    /// An empty registry.
    fn default() -> (m: Self)
        ensures
            m.wf(),
            m.session_count() == 0,
            forall|id: Seq<char>| !m.has_id(id),
    {
        PtyManager::new()
    }
}

/// Which shell to launch: the resolved POSIX shell path, or the
/// console-subsystem fallback chain.
pub enum ShellChoice {
    Posix { shell_path: String },
    Console,
}

/// Respawning an id overwrites the prior entry: after a successful spawn on
/// an id that already had a session, the id maps to the fresh token, which no
/// session in the old registry carried — later writes route to the new
/// shell's handle, never the old one.
pub proof fn lemma_respawn_overwrites(pre: PtyManager, post: PtyManager, id: Seq<char>)
    requires
        pre.wf(),
        pre.has_id(id),
        spawn_installed(pre, post, id),
    ensures
        post.token_of(id) == pre.fresh_token(),
        post.token_of(id) != pre.token_of(id),
        forall|o: Seq<char>| pre.has_id(o) ==> post.token_of(id) != pre.token_of(o),
{
    assert forall|o: Seq<char>| pre.has_id(o) implies post.token_of(id) != pre.token_of(o) by {
        let k = seq_idx(pre.sessions@, o);
        assert(0 <= k < pre.sessions@.len() && pre.sessions@[k].id@ == o);
        assert(pre.sessions@[k].token@ < pre.next@);
    }
    let k = seq_idx(pre.sessions@, id);
    assert(0 <= k < pre.sessions@.len() && pre.sessions@[k].id@ == id);
}

} // verus!

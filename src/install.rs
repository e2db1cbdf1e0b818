//! The install pipeline for a server fetched from a source repository: a
//! state machine that, fed the outcome of each outside step, says which step
//! comes next, down to registering the server or failing at a named step.
use crate::json::keys_unique;
use crate::registry::{
    has_key, keys_sorted, lemma_put, put_spec, value_of, DescriptorModel,
    ServerDescriptor, Transport, TransportModel,
};
use crate::text::{ends_with, find_last, last_index_of, push_all, push_char, string_of_range};
use crate::text::{chars_of, ends_with_spec, same_text, strings_view};
use vstd::prelude::*;

verus! {

// ---------------------------------------------------------------------------
// Name resolution
/// `s` without any run of `c` at its end.
pub open spec fn strip_trailing(s: Seq<char>, c: char) -> Seq<char>
    decreases s.len(),
{
    if s.len() > 0 && s.last() == c {
        strip_trailing(s.drop_last(), c)
    } else {
        s
    }
}

/// `s` without any run of the non-empty suffix `p` at its end.
pub open spec fn strip_suffixes(s: Seq<char>, p: Seq<char>) -> Seq<char>
    decreases s.len(),
{
    if p.len() > 0 && ends_with_spec(s, p) {
        strip_suffixes(s.subrange(0, s.len() - p.len()), p)
    } else {
        s
    }
}

/// What follows the last slash of `s` (all of `s` where it holds none).
pub open spec fn last_segment(s: Seq<char>) -> Seq<char> {
    match last_index_of(s, '/') {
        Some(i) => s.subrange(i + 1, s.len() as int),
        None => s,
    }
}

/// The identifier of a source: trailing slashes and `.git` suffixes taken
/// off, then the last path segment.
pub open spec fn resolved_name(url: Seq<char>) -> Seq<char> {
    last_segment(strip_suffixes(strip_trailing(url, '/'), ".git"@))
}

/// An identifier that can name a directory of its own: not empty, and
/// neither `.` nor `..`.
pub open spec fn valid_name(n: Seq<char>) -> bool {
    n.len() > 0 && n != "."@ && n != ".."@
}

/// Why an install did not complete.
pub enum InstallError {
    /// No identifier can be taken from this source.
    InvalidSource { url: String },
    /// The file system refused a step; the cause.
    Io { message: String },
    /// The source could not be fetched; the fetch tool's diagnostics.
    FetchFailed { diagnostic: String },
    /// The dependencies could not be installed; the package manager's diagnostics.
    DependencyInstallFailed { diagnostic: String },
}

pub enum InstallErrorModel {
    InvalidSource { url: Seq<char> },
    Io { message: Seq<char> },
    FetchFailed { diagnostic: Seq<char> },
    DependencyInstallFailed { diagnostic: Seq<char> },
}

impl View for InstallError {
    type V = InstallErrorModel;

    open spec fn view(&self) -> InstallErrorModel {
        match self {
            InstallError::InvalidSource { url } => InstallErrorModel::InvalidSource { url: url@ },
            InstallError::Io { message } => InstallErrorModel::Io { message: message@ },
            InstallError::FetchFailed { diagnostic } => InstallErrorModel::FetchFailed {
                diagnostic: diagnostic@,
            },
            InstallError::DependencyInstallFailed { diagnostic } => {
                InstallErrorModel::DependencyInstallFailed { diagnostic: diagnostic@ }
            },
        }
    }
}

impl InstallError {
    pub fn copy(&self) -> (r: InstallError)
        ensures
            r@ == self@,
    {
        match self {
            InstallError::InvalidSource { url } => InstallError::InvalidSource { url: url.clone() },
            InstallError::Io { message } => InstallError::Io { message: message.clone() },
            InstallError::FetchFailed { diagnostic } => InstallError::FetchFailed {
                diagnostic: diagnostic.clone(),
            },
            InstallError::DependencyInstallFailed { diagnostic } => {
                InstallError::DependencyInstallFailed { diagnostic: diagnostic.clone() }
            },
        }
    }
}

/// The identifier under which a source is installed and registered.
pub fn resolve_name(url: &str) -> (r: Result<String, InstallError>)
    ensures
        match r {
            Ok(n) => n@ == resolved_name(url@) && valid_name(n@),
            Err(e) => !valid_name(resolved_name(url@)) && e@ == (InstallErrorModel::InvalidSource {
                url: url@,
            }),
        },
{
    let cs = chars_of(url);
    let mut hi = cs.len();
    assert(cs@.subrange(0, hi as int) == cs@);
    while hi > 0 && cs[hi - 1] == '/'
        invariant
            hi <= cs@.len(),
            cs@ == url@,
            strip_trailing(url@, '/') == strip_trailing(cs@.subrange(0, hi as int), '/'),
        decreases hi,
    {
        assert(cs@.subrange(0, hi as int).drop_last() == cs@.subrange(0, hi - 1));
        hi -= 1;
    }
    let suffix = chars_of(".git");
    proof {
        reveal_strlit(".git");
    }
    while ends_with(&cs, 0, hi, &suffix)
        invariant
            hi <= cs@.len(),
            cs@ == url@,
            suffix@ == ".git"@,
            suffix@.len() == 4,
            strip_suffixes(strip_trailing(url@, '/'), ".git"@) == strip_suffixes(
                cs@.subrange(0, hi as int),
                ".git"@,
            ),
        decreases hi,
    {
        assert(cs@.subrange(0, hi as int).subrange(0, hi - 4) == cs@.subrange(0, hi - 4));
        hi -= 4;
    }
    let ghost stripped = cs@.subrange(0, hi as int);
    proof {
        crate::text::lemma_last_index_of(stripped, '/');
    }
    let lo = match find_last(&cs, hi, '/') {
        Some(i) => {
            assert(last_index_of(stripped, '/') == Some(i as int));
            i + 1
        },
        None => {
            assert(last_index_of(stripped, '/') is None);
            0
        },
    };
    let n = string_of_range(&cs, lo, hi);
    assert(stripped.subrange(lo as int, stripped.len() as int) =~= cs@.subrange(lo as int, hi as int));
    assert(n@ == last_segment(stripped));
    if lo == hi || same_text(n.as_str(), ".") || same_text(n.as_str(), "..") {
        Err(InstallError::InvalidSource { url: url.to_string() })
    } else {
        Ok(n)
    }
}

// ---------------------------------------------------------------------------
// Paths and the registered descriptor
pub open spec fn separator(windows: bool) -> char {
    if windows {
        '\\'
    } else {
        '/'
    }
}

/// `a` and `b` joined by the platform's path separator.
pub open spec fn join_spec(a: Seq<char>, b: Seq<char>, windows: bool) -> Seq<char> {
    a.push(separator(windows)) + b
}

pub fn join(a: &str, b: &str, windows: bool) -> (r: String)
    ensures
        r@ == join_spec(a@, b@, windows),
{
    let mut r = a.to_string();
    push_char(&mut r, if windows { '\\' } else { '/' });
    push_all(&mut r, b);
    r
}

/// The built entry point of an installed server.
pub open spec fn dist_entry_spec(dir: Seq<char>, windows: bool) -> Seq<char> {
    join_spec(join_spec(dir, "dist"@, windows), "index.js"@, windows)
}

/// The entry point at the root of an installed server.
pub open spec fn root_entry_spec(dir: Seq<char>, windows: bool) -> Seq<char> {
    join_spec(dir, "index.js"@, windows)
}

/// The entry point to configure: the built one where it exists, else the one
/// at the root where that exists, else the built one all the same.
pub open spec fn entry_point_spec(dir: Seq<char>, windows: bool, dist_exists: bool, root_exists: bool) -> Seq<char> {
    if !dist_exists && root_exists {
        root_entry_spec(dir, windows)
    } else {
        dist_entry_spec(dir, windows)
    }
}

/// The descriptor registered for an installed server: the runtime
/// interpreter on the entry point, in stdio mode, enabled.
pub open spec fn installed_spec(entry: Seq<char>) -> DescriptorModel {
    DescriptorModel {
        transport: TransportModel::Stdio {
            command: "node"@,
            args: seq![entry, "--stdio"@],
            env: Seq::empty(),
        },
        enabled: true,
    }
}

pub fn installed_descriptor(entry: &str) -> (r: ServerDescriptor)
    ensures
        r@ == installed_spec(entry@),
{
    let mut args: Vec<String> = Vec::new();
    args.push(entry.to_string());
    args.push("--stdio".to_string());
    let env: Vec<(String, String)> = Vec::new();
    let r = ServerDescriptor {
        transport: Transport::Stdio { command: "node".to_string(), args, env },
        enabled: true,
    };
    assert(strings_view(args@) =~= seq![entry@, "--stdio"@]);
    assert(crate::json::pairs_view(env@) =~= Seq::<(Seq<char>, Seq<char>)>::empty());
    r
}

/// The package manager's program on the platform.
pub open spec fn npm_spec(windows: bool) -> Seq<char> {
    if windows {
        "npm.cmd"@
    } else {
        "npm"@
    }
}

// ---------------------------------------------------------------------------
// The state machine
#[derive(PartialEq, Eq, Structural, Clone, Copy)]
pub enum Stage {
    PrepareDirectory,
    Fetch,
    InstallDependencies,
    Build,
    LocateEntry,
    Register,
    Installed,
    Failed,
}

/// What the caller reports after carrying out an action.
pub enum InstallEvent {
    /// A directory, command or registry step ended; its diagnostics.
    StepDone { success: bool, diagnostic: String },
    /// Which candidate entry points exist.
    EntryFiles { dist_exists: bool, root_exists: bool },
}

pub enum EventModel {
    StepDone { success: bool, diagnostic: Seq<char> },
    EntryFiles { dist_exists: bool, root_exists: bool },
}

impl View for InstallEvent {
    type V = EventModel;

    open spec fn view(&self) -> EventModel {
        match self {
            InstallEvent::StepDone { success, diagnostic } => EventModel::StepDone {
                success: *success,
                diagnostic: diagnostic@,
            },
            InstallEvent::EntryFiles { dist_exists, root_exists } => EventModel::EntryFiles {
                dist_exists: *dist_exists,
                root_exists: *root_exists,
            },
        }
    }
}

/// What the caller is to do next.
pub enum InstallAction {
    /// Remove `dir` if it exists, then create `root` if it is missing.
    PrepareDirectory { root: String, dir: String },
    /// Run `program` with `args`, in `cwd` where given, capturing diagnostics.
    Run { program: String, args: Vec<String>, cwd: Option<String> },
    /// Report which of the two files exist.
    CheckEntryFiles { dist: String, root: String },
    /// Store `descriptor` under `name` in the registry and save it.
    Register { name: String, descriptor: ServerDescriptor },
    /// The pipeline is over: the name installed, or the step that failed.
    Finish { outcome: Result<String, InstallError> },
}

pub enum ActionModel {
    PrepareDirectory { root: Seq<char>, dir: Seq<char> },
    Run { program: Seq<char>, args: Seq<Seq<char>>, cwd: Option<Seq<char>> },
    CheckEntryFiles { dist: Seq<char>, root: Seq<char> },
    Register { name: Seq<char>, descriptor: DescriptorModel },
    Finish { outcome: Result<Seq<char>, InstallErrorModel> },
}

impl View for InstallAction {
    type V = ActionModel;

    open spec fn view(&self) -> ActionModel {
        match self {
            InstallAction::PrepareDirectory { root, dir } => ActionModel::PrepareDirectory {
                root: root@,
                dir: dir@,
            },
            InstallAction::Run { program, args, cwd } => ActionModel::Run {
                program: program@,
                args: strings_view(args@),
                cwd: match cwd {
                    Some(c) => Some(c@),
                    None => None,
                },
            },
            InstallAction::CheckEntryFiles { dist, root } => ActionModel::CheckEntryFiles {
                dist: dist@,
                root: root@,
            },
            InstallAction::Register { name, descriptor } => ActionModel::Register {
                name: name@,
                descriptor: descriptor@,
            },
            InstallAction::Finish { outcome } => ActionModel::Finish {
                outcome: match outcome {
                    Ok(n) => Ok(n@),
                    Err(e) => Err(e@),
                },
            },
        }
    }
}

/// One run of the install pipeline.
pub struct Installer {
    url: String,
    name: String,
    root: String,
    dir: String,
    windows: bool,
    stage: Stage,
    entry: String,
    build_warning: Option<String>,
    error: Option<InstallError>,
}

pub struct InstallerModel {
    pub url: Seq<char>,
    pub name: Seq<char>,
    pub root: Seq<char>,
    pub dir: Seq<char>,
    pub windows: bool,
    pub stage: Stage,
    pub entry: Seq<char>,
    pub build_warning: Option<Seq<char>>,
    pub error: Option<InstallErrorModel>,
}

impl View for Installer {
    type V = InstallerModel;

    closed spec fn view(&self) -> InstallerModel {
        InstallerModel {
            url: self.url@,
            name: self.name@,
            root: self.root@,
            dir: self.dir@,
            windows: self.windows,
            stage: self.stage,
            entry: self.entry@,
            build_warning: match self.build_warning {
                Some(w) => Some(w@),
                None => None,
            },
            error: match self.error {
                Some(e) => Some(e@),
                None => None,
            },
        }
    }
}

/// The state in which the pipeline for `url` starts: waiting for the
/// directory `<root>/<identifier>` to be prepared.
pub open spec fn started(url: Seq<char>, root: Seq<char>, windows: bool) -> InstallerModel {
    InstallerModel {
        url,
        name: resolved_name(url),
        root,
        dir: join_spec(root, resolved_name(url), windows),
        windows,
        stage: Stage::PrepareDirectory,
        entry: Seq::empty(),
        build_warning: None,
        error: None,
    }
}

/// A failed pipeline knows why.
pub open spec fn installer_wf(m: InstallerModel) -> bool {
    m.stage == Stage::Failed ==> m.error is Some
}

/// The action that the pipeline waits on in the given state.
pub open spec fn pending_spec(m: InstallerModel) -> ActionModel {
    match m.stage {
        Stage::PrepareDirectory => ActionModel::PrepareDirectory { root: m.root, dir: m.dir },
        Stage::Fetch => ActionModel::Run {
            program: "git"@,
            args: seq!["clone"@, m.url, m.dir],
            cwd: None,
        },
        Stage::InstallDependencies => ActionModel::Run {
            program: npm_spec(m.windows),
            args: seq!["install"@],
            cwd: Some(m.dir),
        },
        Stage::Build => ActionModel::Run {
            program: npm_spec(m.windows),
            args: seq!["run"@, "build"@],
            cwd: Some(m.dir),
        },
        Stage::LocateEntry => ActionModel::CheckEntryFiles {
            dist: dist_entry_spec(m.dir, m.windows),
            root: root_entry_spec(m.dir, m.windows),
        },
        Stage::Register => ActionModel::Register { name: m.name, descriptor: installed_spec(m.entry) },
        Stage::Installed => ActionModel::Finish { outcome: Ok(m.name) },
        Stage::Failed => ActionModel::Finish { outcome: Err(m.error->0) },
    }
}

/// The state after an event. Fetch and dependency install failures end the
/// pipeline; a failed build only leaves a warning; an event that does not
/// answer the pending action changes nothing.
pub open spec fn step_spec(m: InstallerModel, e: EventModel) -> InstallerModel {
    match e {
        EventModel::StepDone { success, diagnostic } => match m.stage {
            Stage::PrepareDirectory => if success {
                InstallerModel { stage: Stage::Fetch, ..m }
            } else {
                InstallerModel {
                    stage: Stage::Failed,
                    error: Some(InstallErrorModel::Io { message: diagnostic }),
                    ..m
                }
            },
            Stage::Fetch => if success {
                InstallerModel { stage: Stage::InstallDependencies, ..m }
            } else {
                InstallerModel {
                    stage: Stage::Failed,
                    error: Some(InstallErrorModel::FetchFailed { diagnostic }),
                    ..m
                }
            },
            Stage::InstallDependencies => if success {
                InstallerModel { stage: Stage::Build, ..m }
            } else {
                InstallerModel {
                    stage: Stage::Failed,
                    error: Some(InstallErrorModel::DependencyInstallFailed { diagnostic }),
                    ..m
                }
            },
            Stage::Build => InstallerModel {
                stage: Stage::LocateEntry,
                build_warning: if success {
                    None
                } else {
                    Some(diagnostic)
                },
                ..m
            },
            Stage::Register => if success {
                InstallerModel { stage: Stage::Installed, ..m }
            } else {
                InstallerModel {
                    stage: Stage::Failed,
                    error: Some(InstallErrorModel::Io { message: diagnostic }),
                    ..m
                }
            },
            _ => m,
        },
        EventModel::EntryFiles { dist_exists, root_exists } => match m.stage {
            Stage::LocateEntry => InstallerModel {
                stage: Stage::Register,
                entry: entry_point_spec(m.dir, m.windows, dist_exists, root_exists),
                ..m
            },
            _ => m,
        },
    }
}

fn copy_opt(s: &Option<String>) -> (r: Option<String>)
    ensures
        r == *s,
{
    match s {
        Some(x) => Some(x.clone()),
        None => None,
    }
}

impl Installer {
    /// Where the pipeline stands.
    pub fn stage(&self) -> (r: Stage)
        ensures
            r == self@.stage,
    {
        self.stage
    }

    /// The identifier being installed.
    pub fn name(&self) -> (r: &String)
        ensures
            r@ == self@.name,
    {
        &self.name
    }

    /// The build step's diagnostics, where it failed.
    pub fn build_warning(&self) -> (r: Option<String>)
        ensures
            r matches Some(w) ==> self@.build_warning == Some(w@),
            r is None ==> self@.build_warning is None,
    {
        copy_opt(&self.build_warning)
    }

    /// Starts the pipeline for `url` under the install root `root`: resolves
    /// the identifier and asks for its directory to be prepared.
    pub fn start(url: &str, root: &str, windows: bool) -> (r: Result<(Installer, InstallAction), InstallError>)
        ensures
            match r {
                Ok((m, a)) => {
                    &&& valid_name(resolved_name(url@))
                    &&& m@ == started(url@, root@, windows)
                    &&& a@ == pending_spec(m@)
                },
                Err(e) => !valid_name(resolved_name(url@)) && e@ == (InstallErrorModel::InvalidSource {
                    url: url@,
                }),
            },
    {
        let name = resolve_name(url)?;
        let dir = join(root, name.as_str(), windows);
        let m = Installer {
            url: url.to_string(),
            name,
            root: root.to_string(),
            dir,
            windows,
            stage: Stage::PrepareDirectory,
            entry: String::new(),
            build_warning: None,
            error: None,
        };
        let a = m.pending();
        Ok((m, a))
    }

    /// The action the pipeline waits on.
    pub fn pending(&self) -> (r: InstallAction)
        requires
            installer_wf(self@),
        ensures
            r@ == pending_spec(self@),
    {
        match self.stage {
            Stage::PrepareDirectory => InstallAction::PrepareDirectory {
                root: self.root.clone(),
                dir: self.dir.clone(),
            },
            Stage::Fetch => {
                let mut args: Vec<String> = Vec::new();
                args.push("clone".to_string());
                args.push(self.url.clone());
                args.push(self.dir.clone());
                assert(strings_view(args@) =~= seq!["clone"@, self.url@, self.dir@]);
                InstallAction::Run { program: "git".to_string(), args, cwd: None }
            },
            Stage::InstallDependencies => {
                let mut args: Vec<String> = Vec::new();
                args.push("install".to_string());
                assert(strings_view(args@) =~= seq!["install"@]);
                InstallAction::Run { program: npm(self.windows), args, cwd: Some(self.dir.clone()) }
            },
            Stage::Build => {
                let mut args: Vec<String> = Vec::new();
                args.push("run".to_string());
                args.push("build".to_string());
                assert(strings_view(args@) =~= seq!["run"@, "build"@]);
                InstallAction::Run { program: npm(self.windows), args, cwd: Some(self.dir.clone()) }
            },
            Stage::LocateEntry => {
                let dist_dir = join(self.dir.as_str(), "dist", self.windows);
                InstallAction::CheckEntryFiles {
                    dist: join(dist_dir.as_str(), "index.js", self.windows),
                    root: join(self.dir.as_str(), "index.js", self.windows),
                }
            },
            Stage::Register => InstallAction::Register {
                name: self.name.clone(),
                descriptor: installed_descriptor(self.entry.as_str()),
            },
            Stage::Installed => InstallAction::Finish { outcome: Ok(self.name.clone()) },
            Stage::Failed => {
                let e = match &self.error {
                    Some(e) => e.copy(),
                    None => InstallError::Io { message: String::new() },
                };
                InstallAction::Finish { outcome: Err(e) }
            },
        }
    }

    /// Takes in what the last action gave and says what to do next.
    pub fn advance(&mut self, event: InstallEvent) -> (r: InstallAction)
        requires
            installer_wf(old(self)@),
        ensures
            final(self)@ == step_spec(old(self)@, event@),
            installer_wf(final(self)@),
            r@ == pending_spec(final(self)@),
    {
        match event {
            InstallEvent::StepDone { success, diagnostic } => match self.stage {
                Stage::PrepareDirectory => {
                    if success {
                        self.stage = Stage::Fetch;
                    } else {
                        self.stage = Stage::Failed;
                        self.error = Some(InstallError::Io { message: diagnostic });
                    }
                },
                Stage::Fetch => {
                    if success {
                        self.stage = Stage::InstallDependencies;
                    } else {
                        self.stage = Stage::Failed;
                        self.error = Some(InstallError::FetchFailed { diagnostic });
                    }
                },
                Stage::InstallDependencies => {
                    if success {
                        self.stage = Stage::Build;
                    } else {
                        self.stage = Stage::Failed;
                        self.error = Some(InstallError::DependencyInstallFailed { diagnostic });
                    }
                },
                Stage::Build => {
                    self.stage = Stage::LocateEntry;
                    self.build_warning = if success {
                        None
                    } else {
                        Some(diagnostic)
                    };
                },
                Stage::Register => {
                    if success {
                        self.stage = Stage::Installed;
                    } else {
                        self.stage = Stage::Failed;
                        self.error = Some(InstallError::Io { message: diagnostic });
                    }
                },
                _ => {},
            },
            InstallEvent::EntryFiles { dist_exists, root_exists } => {
                if self.stage == Stage::LocateEntry {
                    self.stage = Stage::Register;
                    self.entry = entry_point(self.dir.as_str(), self.windows, dist_exists, root_exists);
                }
            },
        }
        self.pending()
    }
}

fn npm(windows: bool) -> (r: String)
    ensures
        r@ == npm_spec(windows),
{
    if windows {
        "npm.cmd".to_string()
    } else {
        "npm".to_string()
    }
}

/// The entry point to configure for a server installed in `dir`.
pub fn entry_point(dir: &str, windows: bool, dist_exists: bool, root_exists: bool) -> (r: String)
    ensures
        r@ == entry_point_spec(dir@, windows, dist_exists, root_exists),
{
    if !dist_exists && root_exists {
        join(dir, "index.js", windows)
    } else {
        let dist_dir = join(dir, "dist", windows);
        join(dist_dir.as_str(), "index.js", windows)
    }
}

// ---------------------------------------------------------------------------
// Laws
/// Whatever the build step reports, a pipeline past its dependency install
/// goes on to locate the entry point and then registers the server enabled,
/// in stdio mode on the runtime interpreter.
pub proof fn build_failure_still_registers(
    m: InstallerModel,
    success: bool,
    diagnostic: Seq<char>,
    dist_exists: bool,
    root_exists: bool,
    reg: Seq<(Seq<char>, DescriptorModel)>,
)
    requires
        m.stage == Stage::Build,
        keys_sorted(reg),
    ensures
        ({
            let m1 = step_spec(m, EventModel::StepDone { success, diagnostic });
            let m2 = step_spec(m1, EventModel::EntryFiles { dist_exists, root_exists });
            let reg2 = put_spec(reg, m2.name, installed_spec(m2.entry));
            &&& m1.stage == Stage::LocateEntry
            &&& m2.stage == Stage::Register
            &&& (!success ==> m2.build_warning == Some(diagnostic))
            &&& pending_spec(m2) == (ActionModel::Register {
                name: m.name,
                descriptor: installed_spec(m2.entry),
            })
            &&& has_key(reg2, m.name)
            &&& value_of(reg2, m.name).enabled
        }),
{
    let m1 = step_spec(m, EventModel::StepDone { success, diagnostic });
    let m2 = step_spec(m1, EventModel::EntryFiles { dist_exists, root_exists });
    lemma_put(reg, m2.name, installed_spec(m2.entry));
}

/// Installing the same source twice leaves one directory and one registry
/// entry for its identifier. Each install starts by clearing the directory
/// `<root>/<identifier>` and only then clones into it; the second
/// registration replaces the first entry, so the registry holds the same
/// names as after the first install, and the entry is the second one.
pub proof fn install_twice_keeps_one_entry(
    reg: Seq<(Seq<char>, DescriptorModel)>,
    url: Seq<char>,
    root: Seq<char>,
    windows: bool,
    first_entry: Seq<char>,
    second_entry: Seq<char>,
)
    requires
        keys_sorted(reg),
    ensures
        ({
            let name = resolved_name(url);
            let dir = join_spec(root, name, windows);
            let m = started(url, root, windows);
            let prepared = step_spec(m, EventModel::StepDone { success: true, diagnostic: Seq::empty() });
            let once = put_spec(reg, name, installed_spec(first_entry));
            let twice = put_spec(once, name, installed_spec(second_entry));
            &&& pending_spec(m) == (ActionModel::PrepareDirectory { root, dir })
            &&& prepared.stage == Stage::Fetch
            &&& pending_spec(prepared) == (ActionModel::Run {
                program: "git"@,
                args: seq!["clone"@, url, dir],
                cwd: None,
            })
            &&& twice == put_spec(reg, name, installed_spec(second_entry))
            &&& keys_sorted(twice)
            &&& keys_unique(twice)
            &&& forall|k: Seq<char>| has_key(twice, k) <==> has_key(once, k)
            &&& has_key(twice, name)
            &&& value_of(twice, name) == installed_spec(second_entry)
            &&& forall|i: int, j: int|
                0 <= i < j < twice.len() && twice[i].0 == name ==> twice[j].0 != name
        }),
{
    let name = resolved_name(url);
    let d1 = installed_spec(first_entry);
    let d2 = installed_spec(second_entry);
    let once = put_spec(reg, name, d1);
    lemma_put(reg, name, d1);
    lemma_put(once, name, d2);
    let twice = put_spec(once, name, d2);
    crate::registry::lemma_sorted_unique(reg);
    if has_key(reg, name) {
        let q = crate::registry::key_pos(reg, name);
        crate::registry::lemma_key_pos(reg, name, q);
        crate::registry::lemma_key_pos(once, name, q);
        assert(twice =~= put_spec(reg, name, d2));
    } else {
        let p = crate::registry::place_of(reg, name);
        crate::registry::lemma_place_bound(reg, name, 0);
        assert(once[p].0 == name);
        crate::registry::lemma_key_pos(once, name, p);
        assert(twice =~= put_spec(reg, name, d2));
    }
}

} // verus!

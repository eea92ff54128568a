//! The worktrees that are made for chats, and the snapshots that are left in repositories.

use vstd::prelude::*;

use crate::bytes::{lossy, lossy_of};
use crate::engine::sessions::{SessionMeta, SessionV};
use crate::paths::{
    join_path, letters, letters_of_joined, may_be_same, may_join, plain_name,
    plain_names_stand_alone, same_path, verbatim,
};
use crate::text::{
    between, blank, chars_of, decimal_of, ends, ends_with, is_white, is_whitespace,
    numbered_endings_tell_apart, opt_text, split, split_of, string_of, texts, trim, trim_end,
    trim_end_of, trim_is_empty_iff_blank, trim_of, trim_start, trim_start_of, within,
};

verus! {

// ---- making a worktree -----------------------------------------------------------------------------

/// What a command of git printed, where it succeeded and printed something.
pub fn printed_name(success: bool, printed: &[u8]) -> (r: Option<String>)
    ensures
        opt_text(r) == name_printed(success, printed@),
{
    if !success {
        return None;
    }
    let t = lossy(printed);
    let p = trim(t.as_str());
    proof {
        trim_is_empty_iff_blank(t@);
    }
    if p.as_str().unicode_len() == 0 {
        None
    } else {
        Some(p)
    }
}

pub open spec fn name_printed(success: bool, printed: Seq<u8>) -> Option<Seq<char>> {
    if success && !blank(lossy_of(printed)) {
        Some(trim_of(lossy_of(printed)))
    } else {
        None
    }
}

pub open spec fn with_detail(text: Seq<char>, stderr: Seq<u8>) -> Seq<char> {
    if blank(lossy_of(stderr)) {
        text
    } else {
        text + ": "@ + trim_of(lossy_of(stderr))
    }
}

fn detailed(text: String, stderr: &[u8]) -> (r: String)
    ensures
        r@ == with_detail(text@, stderr@),
{
    let d = lossy(stderr);
    let t = trim(d.as_str());
    proof {
        trim_is_empty_iff_blank(d@);
    }
    if t.as_str().unicode_len() == 0 {
        text
    } else {
        let mut s = text;
        s.append(": ");
        s.append(t.as_str());
        s
    }
}

/// A worktree that was made for a chat: its folder, the repository and the branch.
#[derive(Debug)]
pub struct TaskWorktree {
    pub workspace: String,
    pub base: String,
    pub branch: String,
}

pub struct TaskWorktreeV {
    pub workspace: Seq<char>,
    pub base: Seq<char>,
    pub branch: Seq<char>,
}

impl View for TaskWorktree {
    type V = TaskWorktreeV;

    open spec fn view(&self) -> TaskWorktreeV {
        TaskWorktreeV { workspace: self.workspace@, base: self.base@, branch: self.branch@ }
    }
}

/// What making a worktree waits for.
#[derive(Debug, Clone, Copy, PartialEq, Eq, Structural)]
pub enum Stage {
    /// The repository that the folder is in.
    Asking,
    /// The folder for all worktrees.
    Rooting,
    /// Whether there is something in the way.
    Looking,
    /// The worktree.
    Adding,
    /// Nothing: it is made, or will not be.
    Over,
}

/// A worktree in the making.
#[derive(Debug)]
pub struct Creation {
    pub session_id: String,
    /// The folder that the worktree gets.
    pub path: String,
    /// The repository, once it is known.
    pub repo: String,
    pub stage: Stage,
}

pub struct CreationV {
    pub session_id: Seq<char>,
    pub path: Seq<char>,
    pub repo: Seq<char>,
    pub stage: Stage,
}

impl View for Creation {
    type V = CreationV;

    open spec fn view(&self) -> CreationV {
        CreationV {
            session_id: self.session_id@,
            path: self.path@,
            repo: self.repo@,
            stage: self.stage,
        }
    }
}

/// Something that making a worktree was waiting for.
#[derive(Debug)]
pub enum Found {
    /// git could not be started.
    NoGit { error: String },
    /// What `git rev-parse --show-toplevel` printed, and whether it succeeded.
    TopLevel { success: bool, printed: Vec<u8> },
    /// Whether the folder for all worktrees could be made, and its path.
    Root { root: String, failure: Option<String> },
    /// Whether there is something at the worktree's path.
    Present { exists: bool },
    /// Whether `git worktree add` succeeded, and what it complained of.
    Added { success: bool, stderr: Vec<u8> },
}

pub enum FoundV {
    NoGit { error: Seq<char> },
    TopLevel { success: bool, printed: Seq<u8> },
    Root { root: Seq<char>, failure: Option<Seq<char>> },
    Present { exists: bool },
    Added { success: bool, stderr: Seq<u8> },
}

impl View for Found {
    type V = FoundV;

    open spec fn view(&self) -> FoundV {
        match *self {
            Found::NoGit { error } => FoundV::NoGit { error: error@ },
            Found::TopLevel { success, printed } => FoundV::TopLevel { success, printed: printed@ },
            Found::Root { root, failure } => FoundV::Root { root: root@, failure: opt_text(failure) },
            Found::Present { exists } => FoundV::Present { exists },
            Found::Added { success, stderr } => FoundV::Added { success, stderr: stderr@ },
        }
    }
}

/// What is to be done to make a worktree.
#[derive(Debug)]
pub enum Want {
    /// Ask git for the repository.
    TopLevel,
    /// Make the folder for all worktrees.
    MakeRoot,
    /// Look whether there is something at the worktree's path.
    Look,
    /// Have the repository add the worktree, with this branch.
    Add { repo: String, branch: String },
    /// Nothing more: this worktree was made, or the chat gets none.
    Done(Option<TaskWorktree>),
    /// Nothing more: it failed.
    Fail(String),
    /// Delete what was left at the worktree's path: it failed.
    Clear(String),
    /// Nothing: this was not waited for.
    Nothing,
}

pub enum WantV {
    TopLevel,
    MakeRoot,
    Look,
    Add { repo: Seq<char>, branch: Seq<char> },
    Done(Option<TaskWorktreeV>),
    Fail(Seq<char>),
    Clear(Seq<char>),
    Nothing,
}

impl View for Want {
    type V = WantV;

    open spec fn view(&self) -> WantV {
        match *self {
            Want::TopLevel => WantV::TopLevel,
            Want::MakeRoot => WantV::MakeRoot,
            Want::Look => WantV::Look,
            Want::Add { repo, branch } => WantV::Add { repo: repo@, branch: branch@ },
            Want::Done(Some(w)) => WantV::Done(Some(w@)),
            Want::Done(None) => WantV::Done(None),
            Want::Fail(e) => WantV::Fail(e@),
            Want::Clear(e) => WantV::Clear(e@),
            Want::Nothing => WantV::Nothing,
        }
    }
}

/// The branch of a chat's worktree.
pub open spec fn branch_name(session_id: Seq<char>) -> Seq<char> {
    "e/"@ + session_id
}

fn branch_of(session_id: &str) -> (r: String)
    ensures
        r@ == branch_name(session_id@),
{
    let mut s = "e/".to_string();
    s.append(session_id);
    s
}

pub open spec fn at(s: CreationV, stage: Stage) -> CreationV {
    CreationV { stage, ..s }
}

/// Where making a worktree goes when something is found, and what is to be done then. What was not
/// waited for changes nothing.
pub open spec fn created(s: CreationV, e: FoundV) -> (CreationV, WantV) {
    match (s.stage, e) {
        (Stage::Asking, FoundV::NoGit { error }) => (
            at(s, Stage::Over),
            WantV::Fail("could not start git while creating the task worktree: "@ + error),
        ),
        (Stage::Asking, FoundV::TopLevel { success, printed }) => match name_printed(
            success,
            printed,
        ) {
            Some(repo) => (CreationV { repo, ..at(s, Stage::Rooting) }, WantV::MakeRoot),
            None => (at(s, Stage::Over), WantV::Done(None)),
        },
        (Stage::Rooting, FoundV::Root { root, failure }) => match failure {
            Some(e) => (
                at(s, Stage::Over),
                WantV::Fail("could not create the worktree folder '"@ + root + "': "@ + e),
            ),
            None => (at(s, Stage::Looking), WantV::Look),
        },
        (Stage::Looking, FoundV::Present { exists }) => if exists {
            (at(s, Stage::Over), WantV::Fail("task worktree already exists: "@ + s.path))
        } else {
            (
                at(s, Stage::Adding),
                WantV::Add { repo: s.repo, branch: branch_name(s.session_id) },
            )
        },
        (Stage::Adding, FoundV::NoGit { error }) => (
            at(s, Stage::Over),
            WantV::Fail("could not start git while creating the task worktree: "@ + error),
        ),
        (Stage::Adding, FoundV::Added { success, stderr }) => if success {
            (
                at(s, Stage::Over),
                WantV::Done(
                    Some(
                        TaskWorktreeV {
                            workspace: s.path,
                            base: s.repo,
                            branch: branch_name(s.session_id),
                        },
                    ),
                ),
            )
        } else {
            (
                at(s, Stage::Over),
                WantV::Clear(
                    with_detail("could not create a Git worktree for this "@ + "task"@, stderr),
                ),
            )
        },
        _ => (s, WantV::Nothing),
    }
}

fn no_git(error: &str) -> (r: String)
    ensures
        r@ == "could not start git while creating the task worktree: "@ + error@,
{
    let mut s = "could not start git while creating the task worktree: ".to_string();
    s.append(error);
    s
}

impl Creation {
    /// Begins to make a worktree for a chat at `path`. A chat gets none where its folder is not
    /// there, or is the one for one-off work.
    pub fn begin(session_id: &str, path: &str, folder_exists: bool, scratch: bool) -> (r: (
        Creation,
        Want,
    ))
        ensures
            r.0@ == (CreationV {
                session_id: session_id@,
                path: path@,
                repo: Seq::empty(),
                stage: if folder_exists && !scratch {
                    Stage::Asking
                } else {
                    Stage::Over
                },
            }),
            r.1@ == (if folder_exists && !scratch {
                WantV::TopLevel
            } else {
                WantV::Done(None)
            }),
    {
        let wanted: bool = folder_exists && !scratch;
        let stage: Stage = if wanted {
            Stage::Asking
        } else {
            Stage::Over
        };
        let c = Creation {
            session_id: session_id.to_string(),
            path: path.to_string(),
            repo: String::new(),
            stage,
        };
        if wanted {
            (c, Want::TopLevel)
        } else {
            (c, Want::Done(None))
        }
    }

    /// Takes what was found and says what is to be done next.
    pub fn step(&mut self, found: Found) -> (r: Want)
        ensures
            (final(self)@, r@) == created(old(self)@, found@),
    {
        match (self.stage, found) {
            (Stage::Asking, Found::NoGit { error }) => {
                self.stage = Stage::Over;
                Want::Fail(no_git(error.as_str()))
            },
            (Stage::Asking, Found::TopLevel { success, printed }) => {
                match printed_name(success, printed.as_slice()) {
                    Some(repo) => {
                        self.repo = repo;
                        self.stage = Stage::Rooting;
                        Want::MakeRoot
                    },
                    None => {
                        self.stage = Stage::Over;
                        Want::Done(None)
                    },
                }
            },
            (Stage::Rooting, Found::Root { root, failure }) => {
                match failure {
                    Some(e) => {
                        self.stage = Stage::Over;
                        let mut t = "could not create the worktree folder '".to_string();
                        t.append(root.as_str());
                        t.append("': ");
                        t.append(e.as_str());
                        Want::Fail(t)
                    },
                    None => {
                        self.stage = Stage::Looking;
                        Want::Look
                    },
                }
            },
            (Stage::Looking, Found::Present { exists }) => {
                if exists {
                    self.stage = Stage::Over;
                    let mut t = "task worktree already exists: ".to_string();
                    t.append(self.path.as_str());
                    Want::Fail(t)
                } else {
                    self.stage = Stage::Adding;
                    Want::Add {
                        repo: self.repo.clone(),
                        branch: branch_of(self.session_id.as_str()),
                    }
                }
            },
            (Stage::Adding, Found::NoGit { error }) => {
                self.stage = Stage::Over;
                Want::Fail(no_git(error.as_str()))
            },
            (Stage::Adding, Found::Added { success, stderr }) => {
                self.stage = Stage::Over;
                if success {
                    Want::Done(
                        Some(
                            TaskWorktree {
                                workspace: self.path.clone(),
                                base: self.repo.clone(),
                                branch: branch_of(self.session_id.as_str()),
                            },
                        ),
                    )
                } else {
                    let mut t = "could not create a Git worktree for this ".to_string();
                    t.append("task");
                    Want::Clear(detailed(t, stderr.as_slice()))
                }
            },
            _ => Want::Nothing,
        }
    }
}

/// What was there before is never cleared away: a folder is only deleted where making the
/// worktree failed, and that is only tried once nothing was found in its place.
pub proof fn only_leftovers_are_cleared(s: CreationV, e: FoundV)
    ensures
        created(s, e).1 is Clear ==> s.stage == Stage::Adding,
        created(s, e).0.stage == Stage::Adding && s.stage != Stage::Adding ==> e == (
        FoundV::Present { exists: false }),
        created(s, e).0.path == s.path,
{
}

// ---- giving a chat its worktree --------------------------------------------------------------------

/// What becomes of a chat for which a worktree was to be made.
#[derive(Debug)]
pub enum Provision {
    /// It stays as it is.
    Plain,
    /// It works in the worktree from now on: the chat, as it is then.
    Managed(SessionMeta),
    /// It is not kept, for this reason.
    Discard(String),
}

/// A chat that works in a worktree of its own.
pub open spec fn managed(s: SessionV, w: TaskWorktreeV) -> SessionV {
    SessionV {
        workspace: w.workspace,
        managed_worktree: true,
        worktree_base: w.base,
        worktree_branch: w.branch,
        ..s
    }
}

/// What becomes of a chat once its worktree is made, or is not.
pub fn provision(meta: &SessionMeta, made: Result<Option<TaskWorktree>, String>) -> (r: Provision)
    ensures
        match (made, r) {
            (Ok(Some(w)), Provision::Managed(m)) => m@ == managed(meta@, w@),
            (Ok(None), Provision::Plain) => true,
            (Err(e), Provision::Discard(reason)) => reason == e,
            _ => false,
        },
{
    match made {
        Ok(Some(w)) => {
            let mut m = meta.clone();
            m.workspace = w.workspace;
            m.managed_worktree = true;
            m.worktree_base = w.base;
            m.worktree_branch = w.branch;
            Provision::Managed(m)
        },
        Ok(None) => Provision::Plain,
        Err(e) => Provision::Discard(e),
    }
}

/// A worktree that was made for a chat is one that deleting the chat removes again, with its
/// branch, once its folder is recognised.
pub proof fn what_was_made_is_removed(s: SessionV, w: TaskWorktreeV)
    requires
        w.branch.len() > 0,
    ensures
        removal(managed(s, w), true, true, true) == Some(
            seq![StepV::RemoveWorktree(w.workspace), StepV::DeleteBranch(w.branch)],
        ),
{
    assert(seq![StepV::RemoveWorktree(w.workspace)].push(StepV::DeleteBranch(w.branch)) =~= seq![
        StepV::RemoveWorktree(w.workspace),
        StepV::DeleteBranch(w.branch),
    ]);
}

/// The error where git would not delete a worktree, from what it printed.
pub fn not_deleted(path: &str, stderr: &[u8]) -> (r: String)
    ensures
        r@ == with_detail("could not delete task worktree '"@ + path@ + "'"@, stderr@),
{
    let mut s = "could not delete task worktree '".to_string();
    s.append(path);
    s.append("'");
    detailed(s, stderr)
}

// ---- deleting a worktree ---------------------------------------------------------------------------

/// Something to be done to delete a worktree.
#[derive(Debug)]
pub enum Step {
    /// Delete this folder.
    DeleteFolder(String),
    /// Have the repository remove the worktree in this folder.
    RemoveWorktree(String),
    /// Have the repository forget the worktrees whose folders are gone.
    Prune,
    /// Have the repository delete this branch.
    DeleteBranch(String),
}

pub enum StepV {
    DeleteFolder(Seq<char>),
    RemoveWorktree(Seq<char>),
    Prune,
    DeleteBranch(Seq<char>),
}

impl View for Step {
    type V = StepV;

    open spec fn view(&self) -> StepV {
        match *self {
            Step::DeleteFolder(p) => StepV::DeleteFolder(p@),
            Step::RemoveWorktree(p) => StepV::RemoveWorktree(p@),
            Step::Prune => StepV::Prune,
            Step::DeleteBranch(b) => StepV::DeleteBranch(b@),
        }
    }
}

pub open spec fn steps(v: Seq<Step>) -> Seq<StepV> {
    Seq::new(v.len(), |i: int| v[i]@)
}

/// What deleting a chat does to its folder, given whether the folder is the one that a worktree
/// of the chat has, whether it is there, and whether the repository is. A folder that was not
/// made for the chat is left alone.
pub open spec fn removal(
    s: SessionV,
    matching: bool,
    exists: bool,
    base_exists: bool,
) -> Option<Seq<StepV>> {
    if !s.managed_worktree {
        Some(Seq::empty())
    } else if !matching {
        None
    } else {
        let first = if exists && base_exists {
            seq![StepV::RemoveWorktree(s.workspace)]
        } else if exists {
            seq![StepV::DeleteFolder(s.workspace)]
        } else if base_exists {
            seq![StepV::Prune]
        } else {
            Seq::empty()
        };
        if base_exists && s.worktree_branch.len() > 0 {
            Some(first.push(StepV::DeleteBranch(s.worktree_branch)))
        } else {
            Some(first)
        }
    }
}

pub open spec fn mismatch_text(expected: Seq<char>, got: Seq<char>) -> Seq<char> {
    "refusing to delete a worktree whose path does not match its task id (expected '"@ + expected
        + "', got '"@ + got + "')"@
}

/// The steps that delete the worktree of a chat, once it is known whether its folder is
/// `expected`, the one that a worktree of the chat has.
pub fn removal_with(
    meta: &SessionMeta,
    expected: &str,
    matching: bool,
    exists: bool,
    base_exists: bool,
) -> (r: Result<Vec<Step>, String>)
    ensures
        match r {
            Ok(v) => removal(meta@, matching, exists, base_exists) == Some(steps(v@)),
            Err(e) => removal(meta@, matching, exists, base_exists) is None && e@ == mismatch_text(
                expected@,
                meta@.workspace,
            ),
        },
{
    let mut out: Vec<Step> = Vec::new();
    assert(steps(out@) =~= Seq::empty());
    if !meta.managed_worktree {
        return Ok(out);
    }
    if !matching {
        let mut s = "refusing to delete a worktree whose path does not match its task id (expected '".to_string();
        s.append(expected);
        s.append("', got '");
        s.append(meta.workspace.as_str());
        s.append("')");
        return Err(s);
    }
    if exists && base_exists {
        out.push(Step::RemoveWorktree(meta.workspace.clone()));
        assert(steps(out@) =~= seq![StepV::RemoveWorktree(meta@.workspace)]);
    } else if exists {
        out.push(Step::DeleteFolder(meta.workspace.clone()));
        assert(steps(out@) =~= seq![StepV::DeleteFolder(meta@.workspace)]);
    } else if base_exists {
        out.push(Step::Prune);
        assert(steps(out@) =~= seq![StepV::Prune]);
    }
    if base_exists && meta.worktree_branch.as_str().unicode_len() > 0 {
        let ghost before = steps(out@);
        out.push(Step::DeleteBranch(meta.worktree_branch.clone()));
        assert(steps(out@) =~= before.push(StepV::DeleteBranch(meta@.worktree_branch)));
    }
    Ok(out)
}

/// The steps that delete the worktree of a chat below `root`. Whether its folder is the one that
/// a worktree of the chat has is up to the machine; without that nothing is deleted, and a folder
/// whose letters are not those of the root and the id never is the one.
pub fn remove_task_worktree(
    meta: &SessionMeta,
    root: &str,
    exists: bool,
    base_exists: bool,
) -> (r: Result<Vec<Step>, String>)
    ensures
        match r {
            Ok(v) => if meta@.managed_worktree {
                &&& removal(meta@, true, exists, base_exists) == Some(steps(v@))
                &&& exists|expected: Seq<char>| #[trigger]
                    may_join(root@, meta@.id, expected) && may_be_same(
                        meta@.workspace,
                        expected,
                        true,
                    )
            } else {
                v@.len() == 0
            },
            Err(e) => meta@.managed_worktree && exists|expected: Seq<char>| #[trigger]
                may_join(root@, meta@.id, expected) && may_be_same(
                    meta@.workspace,
                    expected,
                    false,
                ) && e@ == mismatch_text(expected, meta@.workspace),
        },
        meta@.managed_worktree && r is Ok && plain_name(meta@.id) && !verbatim(root@) ==> letters(
            meta@.workspace,
        ) == letters(root@) + letters(meta@.id),
{
    let expected = join_path(root, meta.id.as_str());
    let matching: bool = same_path(meta.workspace.as_str(), expected.as_str());
    let r = removal_with(meta, expected.as_str(), matching, exists, base_exists);
    proof {
        if r is Ok {
            let v = r->Ok_0;
            assert(removal(meta@, matching, exists, base_exists) == Some(steps(v@)));
            assert(steps(v@).len() == v@.len());
            if meta.managed_worktree && plain_name(meta@.id) && !verbatim(root@) {
                plain_names_stand_alone(meta@.id);
                letters_of_joined(root@, meta@.id, expected@);
            }
        }
        assert(may_join(root@, meta@.id, expected@) && may_be_same(
            meta@.workspace,
            expected@,
            matching,
        ));
    }
    r
}

/// A folder that the user chose is never deleted: nothing is done to a folder unless it was made
/// for the chat and is where such a folder is.
pub proof fn chosen_folders_are_never_deleted(
    s: SessionV,
    matching: bool,
    exists: bool,
    base_exists: bool,
    p: Seq<char>,
)
    requires
        removal(s, matching, exists, base_exists) matches Some(v) && (v.contains(
            StepV::DeleteFolder(p),
        ) || v.contains(StepV::RemoveWorktree(p))),
    ensures
        s.managed_worktree,
        matching,
        exists,
        p == s.workspace,
{
}

// ---- snapshots ---------------------------------------------------------------------------------------

/// The message of a chat's snapshots.
pub open spec fn snapshot_tag(id: Seq<char>) -> Seq<char> {
    "e-snapshot-"@ + id
}

/// The message of a chat's snapshots.
pub fn snapshot_message(id: &str) -> (r: String)
    ensures
        r@ == snapshot_tag(id@),
{
    let mut s = "e-snapshot-".to_string();
    s.append(id);
    s
}

/// How many characters of `s` come before its first whitespace.
pub open spec fn word_len(s: Seq<char>) -> nat
    decreases s.len(),
{
    if s.len() == 0 || is_white(s[0]) {
        0
    } else {
        1 + word_len(s.skip(1))
    }
}

/// The first word of a text.
pub open spec fn first_word(s: Seq<char>) -> Option<Seq<char>> {
    let t = trim_start_of(s);
    if t.len() == 0 {
        None
    } else {
        Some(t.take(word_len(t) as int))
    }
}

fn take_word(s: &str) -> (r: Option<String>)
    ensures
        opt_text(r) == first_word(s@),
{
    let t = trim_start(s);
    let v = chars_of(t.as_str());
    if v.len() == 0 {
        return None;
    }
    let mut n: usize = 0;
    assert(t@.skip(0) =~= t@);
    while n < v.len() && !is_whitespace(v[n])
        invariant
            n <= v.len(),
            v@ == t@,
            word_len(t@) == n + word_len(t@.skip(n as int)),
        decreases v.len() - n,
    {
        assert(t@.skip(n as int)[0] == v@[n as int]);
        assert(t@.skip(n as int).skip(1) =~= t@.skip(n + 1));
        n += 1;
    }
    assert(n < v.len() ==> t@.skip(n as int)[0] == v@[n as int]);
    assert(v@.subrange(0, n as int) =~= t@.take(n as int));
    Some(string_of(&v, 0, n))
}

/// The references of the lines that end in `tag`, the last line first.
pub open spec fn refs_in(lines: Seq<Seq<char>>, tag: Seq<char>) -> Seq<Seq<char>>
    decreases lines.len(),
{
    if lines.len() == 0 {
        Seq::empty()
    } else {
        let rest = refs_in(lines.drop_last(), tag);
        match first_word(lines.last()) {
            Some(w) => if ends(trim_end_of(lines.last()), tag) {
                seq![w] + rest
            } else {
                rest
            },
            None => rest,
        }
    }
}

/// The stash entries that are a chat's snapshots, from a listing of references and messages. The
/// last one comes first: dropping an entry renumbers those behind it.
pub fn snapshot_refs(listing: &str, id: &str) -> (r: Vec<String>)
    ensures
        texts(r@) == refs_in(split_of(listing@, '\n'), snapshot_tag(id@)),
{
    let tag = snapshot_message(id);
    let lines = split(listing, '\n');
    let ghost ls = texts(lines@);
    let mut out: Vec<String> = Vec::new();
    let mut i: usize = 0;
    assert(texts(out@) =~= refs_in(ls.take(0), tag@));
    while i < lines.len()
        invariant
            i <= lines.len(),
            ls == texts(lines@),
            texts(out@) == refs_in(ls.take(i as int), tag@),
        decreases lines.len() - i,
    {
        assert(ls.take(i + 1).drop_last() =~= ls.take(i as int));
        let t = trim_end(lines[i].as_str());
        let ghost before = texts(out@);
        if ends_with(t.as_str(), tag.as_str()) {
            match take_word(lines[i].as_str()) {
                Some(w) => {
                    out.insert(0, w);
                    assert(texts(out@) =~= seq![w@] + before);
                },
                None => {},
            }
        }
        i += 1;
    }
    assert(ls.take(ls.len() as int) =~= ls);
    out
}

/// A snapshot belongs to one chat: a line that ends in the tag of one chat does not end in that
/// of another, even where one number begins with the other.
pub proof fn a_snapshot_belongs_to_one_chat(line: Seq<char>, a: u64, b: u64)
    requires
        ends(line, snapshot_tag("s"@ + decimal_of(a as nat))),
        ends(line, snapshot_tag("s"@ + decimal_of(b as nat))),
    ensures
        a == b,
{
    reveal_strlit("s");
    let x = snapshot_tag("s"@ + decimal_of(a as nat));
    let y = snapshot_tag("s"@ + decimal_of(b as nat));
    let p = line.take(line.len() - x.len()) + "e-snapshot-"@;
    let q = line.take(line.len() - y.len()) + "e-snapshot-"@;
    assert(line =~= line.take(line.len() - x.len()) + x);
    assert(line =~= line.take(line.len() - y.len()) + y);
    assert(line =~= p.push('s') + decimal_of(a as nat));
    assert(line =~= q.push('s') + decimal_of(b as nat));
    numbered_endings_tell_apart(p, a as nat, q, b as nat, 's');
}

// ---- what a worktree is for --------------------------------------------------------------------------

/// A worktree is made step by step: in the repository that git names, at its path, unless something
/// is there, and on a branch of its own; the chat is then told all three.
pub proof fn a_worktree_is_made_step_by_step(s: CreationV, printed: Seq<u8>, root: Seq<char>, stderr: Seq<u8>)
    ensures
        s.stage == Stage::Asking && !blank(lossy_of(printed)) ==> {
            let r = created(s, FoundV::TopLevel { success: true, printed });
            &&& r.1 is MakeRoot
            &&& r.0.stage == Stage::Rooting
            &&& r.0.repo == trim_of(lossy_of(printed))
            &&& r.0.path == s.path && r.0.session_id == s.session_id
        },
        s.stage == Stage::Rooting ==> {
            let r = created(s, FoundV::Root { root, failure: None });
            r.1 is Look && r.0 == (CreationV { stage: Stage::Looking, ..s })
        },
        s.stage == Stage::Looking ==> {
            let r = created(s, FoundV::Present { exists: false });
            &&& r.1 == (WantV::Add { repo: s.repo, branch: "e/"@ + s.session_id })
            &&& r.0 == (CreationV { stage: Stage::Adding, ..s })
        },
        s.stage == Stage::Adding ==> {
            let r = created(s, FoundV::Added { success: true, stderr });
            &&& r.1 == WantV::Done(
                Some(
                    TaskWorktreeV {
                        workspace: s.path,
                        base: s.repo,
                        branch: "e/"@ + s.session_id,
                    },
                ),
            )
            &&& r.0.stage == Stage::Over
        },
{
}

/// A folder that is in no repository gets no worktree, which is no failure; whatever else goes wrong
/// is told, with the reason.
pub proof fn what_goes_wrong_with_a_worktree_is_told(
    s: CreationV,
    why: Seq<char>,
    root: Seq<char>,
    printed: Seq<u8>,
    success: bool,
)
    ensures
        s.stage == Stage::Asking && (!success || blank(lossy_of(printed))) ==> created(
            s,
            FoundV::TopLevel { success, printed },
        ).1 == WantV::Done(None),
        s.stage == Stage::Asking || s.stage == Stage::Adding ==> (created(
            s,
            FoundV::NoGit { error: why },
        ).1 matches WantV::Fail(e) && within(why, e)),
        s.stage == Stage::Rooting ==> (created(s, FoundV::Root { root, failure: Some(why) }).1 matches WantV::Fail(
            e,
        ) && within(why, e) && within(root, e)),
        s.stage == Stage::Looking ==> (created(s, FoundV::Present { exists: true }).1 matches WantV::Fail(
            e,
        ) && within(s.path, e)),
        s.stage == Stage::Adding ==> (created(s, FoundV::Added { success: false, stderr: printed }).1 matches WantV::Clear(
            e,
        ) && within(trim_of(lossy_of(printed)), e)),
{
    let a = "could not start git while creating the task worktree: "@;
    between(a, why, Seq::empty(), a + why);
    let b = "could not create the worktree folder '"@;
    between(b + root + "': "@, why, Seq::empty(), b + root + "': "@ + why);
    between(b, root, "': "@ + why, b + root + "': "@ + why);
    let c = "task worktree already exists: "@;
    between(c, s.path, Seq::empty(), c + s.path);
    a_complaint_is_passed_on("could not create a Git worktree for this "@ + "task"@, printed);
}

/// What a command complained of is passed on, behind what was to be done.
pub proof fn a_complaint_is_passed_on(text: Seq<char>, stderr: Seq<u8>)
    ensures
        ({
            let t = with_detail(text, stderr);
            &&& within(text, t)
            &&& within(trim_of(lossy_of(stderr)), t)
            &&& blank(lossy_of(stderr)) ==> t == text
            &&& !blank(lossy_of(stderr)) ==> t == text + ": "@ + trim_of(lossy_of(stderr))
        }),
{
    let t = with_detail(text, stderr);
    let d = trim_of(lossy_of(stderr));
    trim_is_empty_iff_blank(lossy_of(stderr));
    if blank(lossy_of(stderr)) {
        assert(d =~= Seq::empty());
        between(Seq::empty(), text, Seq::empty(), t);
        between(Seq::empty(), d, t, t);
    } else {
        between(Seq::empty(), text, ": "@ + d, t);
        between(text + ": "@, d, Seq::empty(), t);
    }
}

/// What is left of a chat's worktree is removed: its folder by the repository, or directly where the
/// repository is gone; a folder that is gone is forgotten; and its branch is deleted behind that. A
/// chat without one leaves nothing to do, and one whose folder is not recognised is not touched.
pub proof fn all_of_a_worktree_is_removed(s: SessionV, exists: bool, base_exists: bool)
    ensures
        !s.managed_worktree ==> removal(s, true, exists, base_exists) == Some(Seq::<StepV>::empty()),
        s.managed_worktree ==> removal(s, false, exists, base_exists) is None,
        s.managed_worktree && s.worktree_branch.len() > 0 ==> {
            &&& removal(s, true, true, true) == Some(
                seq![StepV::RemoveWorktree(s.workspace), StepV::DeleteBranch(s.worktree_branch)],
            )
            &&& removal(s, true, false, true) == Some(
                seq![StepV::Prune, StepV::DeleteBranch(s.worktree_branch)],
            )
        },
        s.managed_worktree && s.worktree_branch.len() == 0 ==> {
            &&& removal(s, true, true, true) == Some(seq![StepV::RemoveWorktree(s.workspace)])
            &&& removal(s, true, false, true) == Some(seq![StepV::Prune])
        },
        s.managed_worktree ==> {
            &&& removal(s, true, true, false) == Some(seq![StepV::DeleteFolder(s.workspace)])
            &&& removal(s, true, false, false) == Some(Seq::<StepV>::empty())
        },
{
    let b = StepV::DeleteBranch(s.worktree_branch);
    assert(seq![StepV::RemoveWorktree(s.workspace)].push(b) =~= seq![
        StepV::RemoveWorktree(s.workspace),
        b,
    ]);
    assert(seq![StepV::Prune].push(b) =~= seq![StepV::Prune, b]);
}

/// A chat that gets a worktree works there from then on, and is otherwise as it was.
pub proof fn a_managed_chat_works_in_its_worktree(s: SessionV, w: TaskWorktreeV)
    ensures
        managed(s, w).workspace == w.workspace,
        managed(s, w).managed_worktree,
        managed(s, w).worktree_base == w.base,
        managed(s, w).worktree_branch == w.branch,
        managed(s, w).id == s.id,
        managed(s, w).name == s.name,
        managed(s, w).project == s.project,
        managed(s, w).model == s.model,
        managed(s, w).provider == s.provider,
        managed(s, w).created == s.created,
        managed(s, w).state == s.state,
{
}

/// The snapshots of a chat are all the lines that end in its tag, the last first: of each, the word
/// that it begins with.
pub proof fn every_snapshot_is_found(a: Seq<Seq<char>>, b: Seq<Seq<char>>, line: Seq<char>, tag: Seq<char>)
    ensures
        refs_in(a + b, tag) == refs_in(b, tag) + refs_in(a, tag),
        first_word(line) matches Some(w) ==> ends(trim_end_of(line), tag) ==> refs_in(seq![line], tag)
            == seq![w],
        !ends(trim_end_of(line), tag) || first_word(line) is None ==> refs_in(seq![line], tag).len()
            == 0,
    decreases b.len(),
{
    assert(seq![line].drop_last() =~= Seq::empty());
    assert(refs_in(seq![line].drop_last(), tag) =~= Seq::empty());
    match first_word(line) {
        Some(w) => {
            if ends(trim_end_of(line), tag) {
                assert(refs_in(seq![line], tag) =~= seq![w]);
            }
        },
        None => {},
    }
    if b.len() == 0 {
        assert(a + b =~= a);
    } else {
        every_snapshot_is_found(a, b.drop_last(), line, tag);
        assert((a + b).drop_last() =~= a + b.drop_last());
    }
    assert(refs_in(a + b, tag) =~= refs_in(b, tag) + refs_in(a, tag));
}

/// The first word of a line is what stands before its first space.
pub proof fn the_first_word_is_found(word: Seq<char>, rest: Seq<char>)
    requires
        word.len() > 0,
        forall|i: int| 0 <= i < word.len() ==> !is_white(#[trigger] word[i]),
        rest.len() > 0 ==> is_white(rest[0]),
    ensures
        first_word(word + rest) == Some(word),
{
    let s = word + rest;
    assert(s[0] == word[0]);
    assert(trim_start_of(s) == s);
    word_len_is(word, rest);
    assert(s.take(word.len() as int) =~= word);
}

proof fn word_len_is(word: Seq<char>, rest: Seq<char>)
    requires
        forall|i: int| 0 <= i < word.len() ==> !is_white(#[trigger] word[i]),
        rest.len() > 0 ==> is_white(rest[0]),
    ensures
        word_len(word + rest) == word.len(),
    decreases word.len(),
{
    let s = word + rest;
    if word.len() > 0 {
        let w = word.skip(1);
        assert(s[0] == word[0]);
        assert(s.skip(1) =~= w + rest);
        assert forall|i: int| 0 <= i < w.len() implies !is_white(#[trigger] w[i]) by {
            assert(w[i] == word[i + 1]);
        }
        word_len_is(w, rest);
    } else if rest.len() > 0 {
        assert(s[0] == rest[0]);
    }
}

/// What git printed is a name where it succeeded and printed something, without the space around it.
pub proof fn what_git_prints_is_a_name(printed: Seq<u8>)
    ensures
        !blank(lossy_of(printed)) ==> name_printed(true, printed) == Some(trim_of(lossy_of(printed))),
        blank(lossy_of(printed)) ==> name_printed(true, printed) is None,
        name_printed(false, printed) is None,
{
}

/// The snapshots of a chat are known by its id, and a folder that is not recognised is named along
/// with the one that was expected.
pub proof fn what_is_refused_is_named(id: Seq<char>, expected: Seq<char>, got: Seq<char>)
    ensures
        snapshot_tag(id) == "e-snapshot-"@ + id,
        within(expected, mismatch_text(expected, got)),
        within(got, mismatch_text(expected, got)),
{
    let t = mismatch_text(expected, got);
    let a =
        "refusing to delete a worktree whose path does not match its task id (expected '"@;
    between(a, expected, "', got '"@ + got + "')"@, t);
    between(a + expected + "', got '"@, got, "')"@, t);
}

/// What making a worktree is not waiting for changes nothing.
pub proof fn what_a_worktree_does_not_wait_for_changes_nothing(s: CreationV, e: FoundV)
    requires
        !(match s.stage {
            Stage::Asking => e is NoGit || e is TopLevel,
            Stage::Rooting => e is Root,
            Stage::Looking => e is Present,
            Stage::Adding => e is NoGit || e is Added,
            Stage::Over => false,
        }),
    ensures
        created(s, e) == (s, WantV::Nothing),
{
}

} // verus!

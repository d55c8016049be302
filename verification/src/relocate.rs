//! Moving work to another host: which host is asked, what is moved, and what is
//! said on the way.

use vstd::prelude::*;

use crate::commands::{
    app_meant, find_app, host_named, lemma_app_meant, none, one, own_intent, remote_host,
};
use crate::display::{painted, Theme};
use crate::intent::{classify, Intent, IntentView};
use crate::migrate::{host_views, Host, HostView};
use crate::procfs::App;
use crate::scan::{words, words_of};
use crate::session::{find, found_session, session_views, Session, SessionView};
use crate::text::{
    cat2, cat3, cat6, cat7, copy_texts, join, joined, opt_text, owned, push_text, texts,
};

verus! {

// ------------------------------------------------------------ what is said

/// What is said of a session that moves to a host.
pub open spec fn session_text(s: SessionView, h: HostView) -> Seq<char> {
    "[pv] migrating session "@ + s.id + " ("@ + joined(s.cmd, " "@) + ") → "@ + h.addr
}

fn session_line(s: &Session, h: &Host) -> (r: String)
    ensures
        r@ == session_text(s@, h@),
{
    cat6(
        "[pv] migrating session ",
        s.id.as_str(),
        " (",
        join(&s.cmd, " ").as_str(),
        ") → ",
        h.addr.as_str(),
    )
}

/// The refusal of work that cannot be started again elsewhere.
pub open spec fn refusal_text(t: Theme, a: App, i: IntentView) -> Seq<char> {
    let why = if i.detail.len() == 0 {
        "state lives locally"@
    } else {
        i.detail
    };
    painted(t, "31"@, "refusing:"@) + " "@ + a.display@ + " — intent '"@ + i.task
        + "' is not migratable ("@ + why + ")"@
}

fn refusal_line(t: &Theme, a: &App, i: &Intent) -> (r: String)
    ensures
        r@ == refusal_text(*t, *a, i@),
{
    let why: &str = if i.detail.as_str().unicode_len() == 0 {
        "state lives locally"
    } else {
        i.detail.as_str()
    };
    let left: String = cat6(
        t.red("refusing:").as_str(),
        " ",
        a.display.as_str(),
        " — intent '",
        i.task.as_str(),
        "' is not migratable (",
    );
    cat3(left.as_str(), why, ")")
}

/// The command of an application: its arguments, or the words of its command
/// line where they are not known.
pub open spec fn command_of(a: App) -> Seq<Seq<char>> {
    if a.argv@.len() == 0 {
        words_of(a.cmdline@)
    } else {
        texts(a.argv@)
    }
}

fn app_command(a: &App) -> (r: Vec<String>)
    ensures
        texts(r@) == command_of(*a),
        r@.len() == command_of(*a).len(),
{
    let cmd: Vec<String> = if a.argv.len() == 0 {
        words(a.cmdline.as_str())
    } else {
        copy_texts(&a.argv)
    };
    assert(texts(cmd@).len() == cmd@.len());
    cmd
}

/// What is said of an application that moves to a host.
pub open spec fn app_texts(
    t: Theme,
    a: App,
    i: IntentView,
    cwd: Seq<char>,
    h: HostView,
) -> Seq<Seq<char>> {
    seq![
        "[pv] migrating "@ + a.display@ + " ("@ + i.task + ") from "@ + cwd + " → "@ + h.addr,
        painted(
            t,
            "2"@,
            "note: local process keeps running; kill it when the remote run is going"@,
        ),
    ]
}

fn app_lines(t: &Theme, a: &App, i: &Intent, cwd: &str, h: &Host) -> (r: Vec<String>)
    ensures
        texts(r@) == app_texts(*t, *a, i@, cwd@, h@),
{
    let left: String = cat7(
        "[pv] migrating ",
        a.display.as_str(),
        " (",
        i.task.as_str(),
        ") from ",
        cwd,
        " → ",
    );
    let mut out: Vec<String> = one(cat2(left.as_str(), h.addr.as_str()));
    push_text(
        &mut out,
        t.dim("note: local process keeps running; kill it when the remote run is going"),
    );
    assert(texts(out@) =~= app_texts(*t, *a, i@, cwd@, h@));
    out
}

// ------------------------------------------------------------ turns

/// What is to be done next.
pub enum Act {
    /// See whether a host answers.
    Ask { addr: String },
    /// List the sessions.
    Sessions,
    /// List the applications.
    Apps,
    /// Read the working directory of a process.
    Cwd { pid: u32 },
    /// Move a command with its directory to a host.
    Migrate { host: Host, cmd: Vec<String>, cwd: String },
    /// Nothing is left to do.
    Exit { code: i32 },
}

pub ghost enum ActView {
    Ask { addr: Seq<char> },
    Sessions,
    Apps,
    Cwd { pid: u32 },
    Migrate { host: HostView, cmd: Seq<Seq<char>>, cwd: Seq<char> },
    Exit { code: i32 },
}

impl View for Act {
    type V = ActView;

    open spec fn view(&self) -> ActView {
        match self {
            Act::Ask { addr } => ActView::Ask { addr: addr@ },
            Act::Sessions => ActView::Sessions,
            Act::Apps => ActView::Apps,
            Act::Cwd { pid } => ActView::Cwd { pid: *pid },
            Act::Migrate { host, cmd, cwd } => ActView::Migrate {
                host: host@,
                cmd: texts(cmd@),
                cwd: cwd@,
            },
            Act::Exit { code } => ActView::Exit { code: *code },
        }
    }
}

/// How the last act went.
pub enum Event {
    /// Whether the host answers.
    Answer(bool),
    Sessions(Vec<Session>),
    Apps(Vec<App>),
    /// The working directory, where it can be read.
    Cwd(Option<String>),
    /// The command runs on the host, or failed to with a message.
    Migrated(Result<(), String>),
}

/// What is printed on standard output and on standard error, and what is to be
/// done next.
pub struct MoveTurn {
    pub out: Vec<String>,
    pub err: Vec<String>,
    pub act: Act,
}

#[verifier::ext_equal]
pub struct MoveTurnView {
    pub out: Seq<Seq<char>>,
    pub err: Seq<Seq<char>>,
    pub act: ActView,
}

impl View for MoveTurn {
    type V = MoveTurnView;

    open spec fn view(&self) -> MoveTurnView {
        MoveTurnView { out: texts(self.out@), err: texts(self.err@), act: self.act@ }
    }
}

/// What was asked for last.
pub enum Stage {
    /// Whether the host at a place answers.
    Searching { at: usize },
    /// Whether the chosen host answers.
    Confirming { host: Host },
    Listing { host: Host },
    Gathering { host: Host },
    /// Where the application at a place works.
    Placing { host: Host, apps: Vec<App>, app: usize },
    Moving,
    Over,
}

pub ghost enum StageView {
    Searching { at: nat },
    Confirming { host: HostView },
    Listing { host: HostView },
    Gathering { host: HostView },
    Placing { host: HostView, apps: Seq<App>, app: int },
    Moving,
    Over,
}

impl View for Stage {
    type V = StageView;

    open spec fn view(&self) -> StageView {
        match self {
            Stage::Searching { at } => StageView::Searching { at: *at as nat },
            Stage::Confirming { host } => StageView::Confirming { host: host@ },
            Stage::Listing { host } => StageView::Listing { host: host@ },
            Stage::Gathering { host } => StageView::Gathering { host: host@ },
            Stage::Placing { host, apps, app } => StageView::Placing {
                host: host@,
                apps: apps@,
                app: *app as int,
            },
            Stage::Moving => StageView::Moving,
            Stage::Over => StageView::Over,
        }
    }
}

/// A move on its way.
pub struct Relocation {
    pub theme: Theme,
    pub target: String,
    pub hosts: Vec<(String, Host)>,
    pub stage: Stage,
}

/// What does not change on the way.
#[verifier::ext_equal]
pub struct Move {
    pub theme: Theme,
    pub target: Seq<char>,
    pub hosts: Seq<(Seq<char>, HostView)>,
}

/// A turn that only asks for something.
pub open spec fn wants(act: ActView) -> MoveTurnView {
    MoveTurnView { out: Seq::empty(), err: Seq::empty(), act }
}

/// A move that is given up with a line on standard error.
pub open spec fn gives_up(line: Seq<char>) -> (StageView, MoveTurnView) {
    (
        StageView::Over,
        MoveTurnView {
            out: Seq::empty(),
            err: seq![line],
            act: ActView::Exit { code: 1 },
        },
    )
}

/// A move that ends with a code.
pub open spec fn ends(code: i32) -> (StageView, MoveTurnView) {
    (StageView::Over, wants(ActView::Exit { code }))
}

/// The first turn: how the host is found.
pub open spec fn choosing(g: Move, to: Option<Seq<char>>) -> (StageView, MoveTurnView) {
    if g.hosts.len() == 0 {
        gives_up("no remote hosts configured — run `pv hosts --init` and edit it"@)
    } else {
        match to {
            Some(name) => match host_named(g.hosts, name) {
                Some(host) => (
                    StageView::Confirming { host },
                    wants(ActView::Ask { addr: host.addr }),
                ),
                None => gives_up("unknown host '"@ + name + "' — see `pv hosts`"@),
            },
            None => (
                StageView::Searching { at: 0 },
                wants(ActView::Ask { addr: g.hosts[0].1.addr }),
            ),
        }
    }
}

/// Whether the host that was asked answers.
pub open spec fn answers(ev: Event) -> bool {
    ev == Event::Answer(true)
}

/// The sessions that were listed.
pub open spec fn listed(ev: Event) -> Seq<SessionView> {
    match ev {
        Event::Sessions(list) => session_views(list@),
        _ => Seq::empty(),
    }
}

/// The applications that were listed.
pub open spec fn gathered(ev: Event) -> Seq<App> {
    match ev {
        Event::Apps(list) => list@,
        _ => Seq::empty(),
    }
}

/// The directory that work is moved from.
pub open spec fn place(ev: Event) -> Seq<char> {
    match ev {
        Event::Cwd(Some(cwd)) => cwd@,
        _ => "."@,
    }
}

/// The turn that moves an application, once its directory is known.
pub open spec fn app_moves(g: Move, host: HostView, a: App, cwd: Seq<char>) -> (
    StageView,
    MoveTurnView,
) {
    if command_of(a).len() == 0 {
        gives_up("cannot reconstruct command line for "@ + a.display@)
    } else {
        (
            StageView::Moving,
            MoveTurnView {
                out: app_texts(g.theme, a, own_intent(a), cwd, host),
                err: Seq::empty(),
                act: ActView::Migrate { host, cmd: command_of(a), cwd },
            },
        )
    }
}

/// The turn once the applications are listed: only what can be started again
/// elsewhere is moved.
pub open spec fn app_chosen(g: Move, host: HostView, apps: Seq<App>) -> (StageView, MoveTurnView) {
    match app_meant(apps, g.target) {
        None => gives_up("no session or app matching '"@ + g.target + "'"@),
        Some(k) => if own_intent(apps[k]).can_migrate {
            (
                StageView::Placing { host, apps, app: k },
                wants(ActView::Cwd { pid: apps[k].leader }),
            )
        } else {
            gives_up(refusal_text(g.theme, apps[k], own_intent(apps[k])))
        },
    }
}

/// The turn once the sessions are listed: one that is meant is moved, and
/// otherwise the applications are asked for.
pub open spec fn session_chosen(g: Move, host: HostView, list: Seq<SessionView>) -> (
    StageView,
    MoveTurnView,
) {
    match found_session(list, g.target) {
        Some(s) => (
            StageView::Moving,
            MoveTurnView {
                out: seq![session_text(s, host)],
                err: Seq::empty(),
                act: ActView::Migrate { host, cmd: s.cmd, cwd: s.cwd },
            },
        ),
        None => (StageView::Gathering { host }, wants(ActView::Apps)),
    }
}

/// What comes next, by how the last act went.
pub open spec fn relocated(g: Move, stage: StageView, ev: Event) -> (StageView, MoveTurnView) {
    match stage {
        StageView::Searching { at } => if answers(ev) {
            let (name, host) = g.hosts[at as int];
            (
                StageView::Confirming { host },
                MoveTurnView {
                    out: seq!["[pv] selected host "@ + painted(g.theme, "1"@, name)],
                    err: Seq::empty(),
                    act: ActView::Ask { addr: host.addr },
                },
            )
        } else if at + 1 < g.hosts.len() {
            (
                StageView::Searching { at: at + 1 },
                wants(ActView::Ask { addr: g.hosts[at as int + 1].1.addr }),
            )
        } else {
            gives_up("no configured host is online"@)
        },
        StageView::Confirming { host } => if answers(ev) {
            (StageView::Listing { host }, wants(ActView::Sessions))
        } else {
            gives_up("host "@ + host.addr + " is offline"@)
        },
        StageView::Listing { host } => session_chosen(g, host, listed(ev)),
        StageView::Gathering { host } => app_chosen(g, host, gathered(ev)),
        StageView::Placing { host, apps, app } => app_moves(g, host, apps[app], place(ev)),
        StageView::Moving => match ev {
            Event::Migrated(Ok(())) => ends(0),
            Event::Migrated(Err(e)) => gives_up("[pv] "@ + e@),
            _ => ends(1),
        },
        StageView::Over => ends(1),
    }
}

fn want(act: Act) -> (r: MoveTurn)
    ensures
        r@ == wants(act@),
{
    MoveTurn { out: none(), err: none(), act }
}

fn give_up(line: String) -> (r: (Stage, MoveTurn))
    ensures
        (r.0@, r.1@) == gives_up(line@),
        r.0 is Over,
{
    (Stage::Over, MoveTurn { out: none(), err: one(line), act: Act::Exit { code: 1 } })
}

fn end(code: i32) -> (r: (Stage, MoveTurn))
    ensures
        (r.0@, r.1@) == ends(code),
        r.0 is Over,
{
    (Stage::Over, want(Act::Exit { code }))
}

impl Relocation {
    pub open spec fn given(&self) -> Move {
        Move { theme: self.theme, target: self.target@, hosts: host_views(self.hosts@) }
    }

    /// Whether a place that a stage speaks of is one.
    pub open spec fn wf(&self) -> bool {
        match self.stage {
            Stage::Searching { at } => at < self.hosts@.len(),
            Stage::Placing { apps, app, .. } => app < apps@.len(),
            _ => true,
        }
    }

    /// What comes next, by how the last act went.
    pub fn next(self, ev: Event) -> (r: (Relocation, MoveTurn))
        requires
            self.wf(),
        ensures
            r.0.wf(),
            r.0.given() == self.given(),
            (r.0.stage@, r.1@) == relocated(self.given(), self.stage@, ev),
    {
        let ghost g = self.given();
        let (stage, turn) = match self.stage {
            Stage::Searching { at } => search(&self.theme, &self.hosts, at, &ev),
            Stage::Confirming { host } => confirm(host, &ev),
            Stage::Listing { host } => list(&self.theme, &self.target, host, ev),
            Stage::Gathering { host } => gather(&self.theme, &self.target, host, ev),
            Stage::Placing { host, apps, app } => place_app(
                &self.theme,
                &self.target,
                host,
                &apps[app],
                &ev,
            ),
            Stage::Moving => match ev {
                Event::Migrated(Ok(())) => end(0),
                Event::Migrated(Err(e)) => give_up(cat2("[pv] ", e.as_str())),
                _ => end(1),
            },
            Stage::Over => end(1),
        };
        (Relocation { theme: self.theme, target: self.target, hosts: self.hosts, stage }, turn)
    }
}

fn is_yes(ev: &Event) -> (r: bool)
    ensures
        r == answers(*ev),
{
    match ev {
        Event::Answer(b) => *b,
        _ => false,
    }
}

fn search(t: &Theme, hosts: &Vec<(String, Host)>, at: usize, ev: &Event) -> (r: (
    Stage,
    MoveTurn,
))
    requires
        at < hosts@.len(),
    ensures
        forall|target: Seq<char>|
            (r.0@, r.1@) == #[trigger] relocated(
                Move { theme: *t, target, hosts: host_views(hosts@) },
                StageView::Searching { at: at as nat },
                *ev,
            ),
        r.0 matches Stage::Searching { at: k } ==> k < hosts@.len(),
        !(r.0 is Placing),
{
    let ghost all = host_views(hosts@);
    assert(all[at as int] == (hosts@[at as int].0@, hosts@[at as int].1@));
    assert(at < hosts.len());
    if is_yes(ev) {
        let host: Host = hosts[at].1.copy();
        let line: String = cat2("[pv] selected host ", t.bold(hosts[at].0.as_str()).as_str());
        let addr: String = host.addr.clone();
        (
            Stage::Confirming { host },
            MoveTurn { out: one(line), err: none(), act: Act::Ask { addr } },
        )
    } else if at + 1 < hosts.len() {
        assert(all[at as int + 1] == (hosts@[at as int + 1].0@, hosts@[at as int + 1].1@));
        (
            Stage::Searching { at: at + 1 },
            want(Act::Ask { addr: hosts[at + 1].1.addr.clone() }),
        )
    } else {
        give_up(owned("no configured host is online"))
    }
}

fn confirm(host: Host, ev: &Event) -> (r: (Stage, MoveTurn))
    ensures
        forall|g: Move|
            (r.0@, r.1@) == #[trigger] relocated(g, StageView::Confirming { host: host@ }, *ev),
        !(r.0 is Placing) && !(r.0 is Searching),
{
    if is_yes(ev) {
        (Stage::Listing { host }, want(Act::Sessions))
    } else {
        give_up(cat3("host ", host.addr.as_str(), " is offline"))
    }
}

fn list(t: &Theme, target: &String, host: Host, ev: Event) -> (r: (Stage, MoveTurn))
    ensures
        forall|g: Move|
            #![trigger session_chosen(g, host@, listed(ev))]
            g.target == target@ ==> (r.0@, r.1@) == session_chosen(g, host@, listed(ev)),
        !(r.0 is Placing) && !(r.0 is Searching),
{
    let all: Vec<Session> = match ev {
        Event::Sessions(list) => list,
        _ => Vec::new(),
    };
    assert(session_views(all@) =~= listed(ev));
    match find(&all, target.as_str()) {
        Some(s) => {
            let out: Vec<String> = one(session_line(&s, &host));
            (
                Stage::Moving,
                MoveTurn {
                    out,
                    err: none(),
                    act: Act::Migrate { host, cmd: s.cmd, cwd: s.cwd },
                },
            )
        },
        None => (Stage::Gathering { host }, want(Act::Apps)),
    }
}

fn gather(t: &Theme, target: &String, host: Host, ev: Event) -> (r: (Stage, MoveTurn))
    ensures
        forall|g: Move|
            #![trigger app_chosen(g, host@, gathered(ev))]
            g.target == target@ && g.theme == *t ==> (r.0@, r.1@) == app_chosen(
                g,
                host@,
                gathered(ev),
            ),
        r.0 matches Stage::Placing { apps, app, .. } ==> app < apps@.len(),
        !(r.0 is Searching),
{
    let apps: Vec<App> = match ev {
        Event::Apps(list) => list,
        _ => Vec::new(),
    };
    assert(apps@ =~= gathered(ev));
    match find_app(&apps, target.as_str()) {
        None => give_up(cat3("no session or app matching '", target.as_str(), "'")),
        Some(k) => {
            let i: Intent = classify(&apps[k]);
            if i.can_migrate {
                let pid: u32 = apps[k].leader;
                (Stage::Placing { host, apps, app: k }, want(Act::Cwd { pid }))
            } else {
                give_up(refusal_line(t, &apps[k], &i))
            }
        },
    }
}

fn place_app(t: &Theme, target: &String, host: Host, a: &App, ev: &Event) -> (r: (
    Stage,
    MoveTurn,
))
    ensures
        forall|g: Move|
            #![trigger app_moves(g, host@, *a, place(*ev))]
            g.theme == *t ==> (r.0@, r.1@) == app_moves(g, host@, *a, place(*ev)),
        !(r.0 is Placing) && !(r.0 is Searching),
{
    let cwd: String = match ev {
        Event::Cwd(Some(c)) => c.clone(),
        _ => owned("."),
    };
    let cmd: Vec<String> = app_command(a);
    if cmd.len() == 0 {
        return give_up(cat2("cannot reconstruct command line for ", a.display.as_str()));
    }
    let i: Intent = classify(a);
    let out: Vec<String> = app_lines(t, a, &i, cwd.as_str(), &host);
    (Stage::Moving, MoveTurn { out, err: none(), act: Act::Migrate { host, cmd, cwd } })
}

/// Set about a move: the first turn finds the host that is named, or asks the
/// first of the list.
pub fn relocate(t: &Theme, target: &str, to: &Option<String>, hosts: Vec<(String, Host)>) -> (r: (
    Relocation,
    MoveTurn,
))
    ensures
        r.0.wf(),
        r.0.given() == (Move { theme: *t, target: target@, hosts: host_views(hosts@) }),
        (r.0.stage@, r.1@) == choosing(r.0.given(), opt_text(*to)),
{
    let ghost all = host_views(hosts@);
    let (stage, turn) = if hosts.len() == 0 {
        give_up(owned("no remote hosts configured — run `pv hosts --init` and edit it"))
    } else {
        match to {
            Some(name) => match remote_host(&hosts, name.as_str()) {
                Ok(host) => {
                    let addr: String = host.addr.clone();
                    (Stage::Confirming { host }, want(Act::Ask { addr }))
                },
                Err(e) => give_up(cat3("unknown host '", name.as_str(), "' — see `pv hosts`")),
            },
            None => {
                assert(all[0] == (hosts@[0].0@, hosts@[0].1@));
                (
                    Stage::Searching { at: 0 },
                    want(Act::Ask { addr: hosts[0].1.addr.clone() }),
                )
            },
        }
    };
    (Relocation { theme: *t, target: owned(target), hosts, stage }, turn)
}

// ------------------------------------------------------------ laws

/// Only work that can be started again elsewhere is moved: an application is
/// placed, and so moved, only where its intent allows a migration.
pub proof fn only_restartable_work_moves(g: Move, stage: StageView, ev: Event)
    ensures
        relocated(g, stage, ev).0 matches StageView::Placing { apps, app, .. } ==> 0 <= app
            < apps.len() && own_intent(apps[app]).can_migrate,
        relocated(g, stage, ev).1.act is Migrate ==> stage is Placing || stage is Listing,
{
    lemma_app_meant(gathered(ev), g.target);
}

/// Work moves only to a host that answered: nothing is listed before the chosen
/// host has said that it is there, and what is moved goes to that host.
pub proof fn work_moves_to_a_host_that_answered(g: Move, stage: StageView, ev: Event)
    ensures
        relocated(g, stage, ev).0 matches StageView::Listing { host } ==> stage
            == (StageView::Confirming { host }) && answers(ev),
        relocated(g, stage, ev).0 matches StageView::Gathering { host } ==> stage
            == (StageView::Listing { host }),
        relocated(g, stage, ev).1.act matches ActView::Migrate { host, .. } ==> match stage {
            StageView::Listing { host: asked } => host == asked,
            StageView::Placing { host: asked, .. } => host == asked,
            _ => false,
        },
{
}

/// A move succeeds exactly where the command runs on the host: no other stage and
/// no other answer ends it with success, and one that fails says why.
pub proof fn only_a_migration_ends_a_move_well(g: Move, stage: StageView, ev: Event)
    ensures
        relocated(g, stage, ev).1.act == (ActView::Exit { code: 0 }) <==> stage is Moving && (
        ev matches Event::Migrated(r) && r is Ok),
        relocated(g, stage, ev).1.act matches ActView::Exit { code } ==> code == 0 || code == 1,
        stage is Moving ==> relocated(g, stage, ev).1.act is Exit,
        stage is Moving ==> (ev matches Event::Migrated(Err(e)) ==> relocated(g, stage, ev).1.err
            == seq!["[pv] "@ + e@]),
{
}

/// The host of a move is the first one of the given name, or else the first that
/// answers: the hosts are asked one after the other, none is left out, and the
/// one that is chosen is asked once more. Without hosts, with an unknown name and
/// with no answer the move is given up.
pub proof fn a_move_goes_to_the_first_host_that_answers(
    g: Move,
    to: Option<Seq<char>>,
    at: nat,
    ev: Event,
)
    requires
        at < g.hosts.len(),
    ensures
        to is None ==> choosing(g, to) == (
            StageView::Searching { at: 0 },
            wants(ActView::Ask { addr: g.hosts[0].1.addr }),
        ),
        ev != Event::Answer(true) && at + 1 < g.hosts.len() ==> relocated(
            g,
            StageView::Searching { at },
            ev,
        ) == (
            StageView::Searching { at: at + 1 },
            wants(ActView::Ask { addr: g.hosts[at as int + 1].1.addr }),
        ),
        ev != Event::Answer(true) && at + 1 == g.hosts.len() ==> relocated(
            g,
            StageView::Searching { at },
            ev,
        ).1.act == (ActView::Exit { code: 1 }),
        ev == Event::Answer(true) ==> relocated(g, StageView::Searching { at }, ev).0 == (
        StageView::Confirming { host: g.hosts[at as int].1 }) && relocated(
            g,
            StageView::Searching { at },
            ev,
        ).1.act == (ActView::Ask { addr: g.hosts[at as int].1.addr }),
        to is Some ==> forall|i: int|
            0 <= i < g.hosts.len() && (#[trigger] g.hosts[i]).0 == to->0 && (forall|j: int|
                0 <= j < i ==> (#[trigger] g.hosts[j]).0 != to->0) ==> choosing(g, to) == (
                StageView::Confirming { host: g.hosts[i].1 },
                wants(ActView::Ask { addr: g.hosts[i].1.addr }),
            ),
        to is Some && (forall|i: int| 0 <= i < g.hosts.len() ==> (#[trigger] g.hosts[i]).0 != to->0)
            ==> choosing(g, to).1.act == (ActView::Exit { code: 1 }),
{
    if to is Some {
        lemma_host_named(g.hosts, to->0);
        assert forall|i: int|
            0 <= i < g.hosts.len() && (#[trigger] g.hosts[i]).0 == to->0 && (forall|j: int|
                0 <= j < i ==> (#[trigger] g.hosts[j]).0 != to->0) implies host_named(
            g.hosts,
            to->0,
        ) == Some(g.hosts[i].1) by {
            let f = choose|f: int|
                0 <= f < g.hosts.len() && (#[trigger] g.hosts[f]).0 == to->0 && host_named(
                    g.hosts,
                    to->0,
                ) == Some(g.hosts[f].1) && forall|j: int|
                    0 <= j < f ==> (#[trigger] g.hosts[j]).0 != to->0;
            if f < i {
                assert(g.hosts[f].0 != to->0);
            }
            if i < f {
                assert(g.hosts[i].0 != to->0);
            }
        }
    }
}

proof fn lemma_host_named(hosts: Seq<(Seq<char>, HostView)>, name: Seq<char>)
    ensures
        host_named(hosts, name) is None ==> forall|j: int|
            0 <= j < hosts.len() ==> (#[trigger] hosts[j]).0 != name,
        host_named(hosts, name) is Some ==> exists|f: int|
            0 <= f < hosts.len() && (#[trigger] hosts[f]).0 == name && host_named(hosts, name)
                == Some(hosts[f].1) && forall|j: int|
                0 <= j < f ==> (#[trigger] hosts[j]).0 != name,
    decreases hosts.len(),
{
    if hosts.len() > 0 {
        let rest = hosts.drop_first();
        lemma_host_named(rest, name);
        assert forall|j: int| 1 <= j < hosts.len() implies rest[j - 1] == #[trigger] hosts[j] by {}
        if hosts[0].0 == name {
            assert(host_named(hosts, name) == Some(hosts[0].1));
        } else if host_named(rest, name) is Some {
            let f = choose|f: int|
                0 <= f < rest.len() && (#[trigger] rest[f]).0 == name && host_named(rest, name)
                    == Some(rest[f].1) && forall|j: int|
                    0 <= j < f ==> (#[trigger] rest[j]).0 != name;
            assert(hosts[f + 1] == rest[f]);
            assert forall|j: int| 0 <= j < f + 1 implies (#[trigger] hosts[j]).0 != name by {
                if j > 0 {
                    assert(rest[j - 1].0 != name);
                }
            }
        }
    }
}

/// What is moved is what was meant: the command of the session that was found,
/// with its directory, or the command of the application, with the directory that
/// it works in, where its intent can migrate. Work that cannot is refused, and so
/// is what is unknown.
pub proof fn what_is_meant_is_moved(g: Move, host: HostView, ev: Event, apps: Seq<App>, app: int)
    requires
        0 <= app < apps.len(),
    ensures
        ev matches Event::Sessions(list) ==> (match found_session(session_views(list@), g.target) {
            Some(s) => relocated(g, StageView::Listing { host }, ev).1.act == (ActView::Migrate {
                host,
                cmd: s.cmd,
                cwd: s.cwd,
            }),
            None => relocated(g, StageView::Listing { host }, ev).1.act is Apps,
        }),
        ev matches Event::Apps(list) ==> (match app_meant(list@, g.target) {
            Some(k) => if own_intent(list@[k]).can_migrate {
                relocated(g, StageView::Gathering { host }, ev).1.act == (ActView::Cwd {
                    pid: list@[k].leader,
                })
            } else {
                relocated(g, StageView::Gathering { host }, ev).1.act == (ActView::Exit { code: 1 })
            },
            None => relocated(g, StageView::Gathering { host }, ev).1.act == (ActView::Exit {
                code: 1,
            }),
        }),
        apps[app].argv@.len() > 0 ==> relocated(
            g,
            StageView::Placing { host, apps, app },
            ev,
        ).1.act == (ActView::Migrate {
            host,
            cmd: texts(apps[app].argv@),
            cwd: if ev is Cwd && ev->Cwd_0 is Some {
                ev->Cwd_0->0@
            } else {
                "."@
            },
        }),
        apps[app].argv@.len() == 0 && words_of(apps[app].cmdline@).len() == 0 ==> relocated(
            g,
            StageView::Placing { host, apps, app },
            ev,
        ).1.act == (ActView::Exit { code: 1 }),
{
    assert(texts(apps[app].argv@).len() == apps[app].argv@.len());
}

/// A move is told with what moves, from where and to where; a refusal with
/// why.
pub proof fn moves_and_refusals_are_told(a: App, i: IntentView, cwd: Seq<char>, h: HostView)
    ensures
        ({
            let t = Theme { enabled: false };
            let told = app_texts(t, a, i, cwd, h);
            &&& told.len() == 2
            &&& told[0] == "[pv] migrating "@ + a.display@ + " ("@ + i.task + ") from "@ + cwd
                + " → "@ + h.addr
            &&& i.detail.len() == 0 ==> refusal_text(t, a, i) == "refusing:"@ + " "@ + a.display@
                + " — intent '"@ + i.task + "' is not migratable ("@ + "state lives locally"@ + ")"@
            &&& i.detail.len() > 0 ==> refusal_text(t, a, i) == "refusing:"@ + " "@ + a.display@
                + " — intent '"@ + i.task + "' is not migratable ("@ + i.detail + ")"@
        }),
{
}

/// A command is moved with the arguments that it was started with, or with
/// the words of its line where those are not known.
pub proof fn commands_are_moved_with_their_arguments(a: App)
    ensures
        a.argv@.len() > 0 ==> command_of(a) == texts(a.argv@),
        a.argv@.len() == 0 ==> command_of(a) == words_of(a.cmdline@),
{
}

} // verus!

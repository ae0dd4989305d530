//! How the state is set up: the hardware, the configuration, the default apps, and the processes that
//! run already.
use std::collections::VecDeque;

use vstd::prelude::*;

use crate::config::RuntimeConfig;
use crate::daemon::{DaemonModel, DaemonState, Name};
use crate::hasher::{FastMap, FastSet};
use crate::parser;
use crate::records::{Record, RecordModel};
use crate::system;
use crate::telemetry::SessionStats;
use crate::text;

verus! {

/// How many apps one pass evicts by default: the more memory, the fewer.
pub fn default_max_kills(total_ram_mb: u64) -> (n: usize)
    ensures
        n == if total_ram_mb <= 4608 {
            4usize
        } else if total_ram_mb <= 8704 {
            2
        } else {
            1
        },
{
    if total_ram_mb <= 4608 {
        4
    } else if total_ram_mb <= 8704 {
        2
    } else {
        1
    }
}

/// The size of a page in kilobytes, from its size in bytes; 4 where that is not known.
pub fn page_size_in_kb(page_size: i64) -> (kb: u64)
    ensures
        kb == if page_size > 0 {
            page_size as int / 1024
        } else {
            4
        },
{
    if page_size > 0 {
        (page_size as u64) / 1024
    } else {
        4
    }
}

impl DaemonModel {
    /// The state at the start.
    pub open spec fn initial(
        config: RuntimeConfig,
        act_mode: bool,
        screen_on: bool,
        page_size_kb: u64,
        now: u64,
    ) -> DaemonModel {
        DaemonModel {
            config,
            alive: Map::empty(),
            owner: Map::empty(),
            pids: Map::empty(),
            uids: Map::empty(),
            deaths: Map::empty(),
            user_exclusions: Set::empty(),
            games: Set::empty(),
            dynamic_exclusions: Set::empty(),
            lru: Seq::empty(),
            current_fg: None,
            fg_since: None,
            screen_on_start: if screen_on {
                Some(now)
            } else {
                None
            },
            screen_off_start: if screen_on {
                None
            } else {
                Some(now)
            },
            game_session_start: None,
            session_start: now,
            last_event_epoch: now,
            stats: SessionStats { bg_spawns: 0, bg_deaths: 0, spawn_rss_kb: 0 },
            page_size_kb,
            intrusions: 0,
            screen_on,
            is_gaming: false,
            act_mode,
        }
    }
}

// ---------------------------------------------------------------------------
// Lists of names
// ---------------------------------------------------------------------------
/// Whether a line of a list holds a name: it is neither blank nor a comment.
pub open spec fn is_entry(line: Seq<char>) -> bool {
    text::trimmed(line).len() > 0 && !parser::begins(text::trimmed(line), '#')
}

/// The names in the lines of a list.
pub open spec fn entries(lines: Seq<Seq<char>>) -> Set<Name>
    decreases lines.len(),
{
    if lines.len() == 0 {
        Set::empty()
    } else if is_entry(lines.last()) {
        entries(lines.drop_last()).insert(text::trimmed(lines.last()))
    } else {
        entries(lines.drop_last())
    }
}

/// The names in a list; none where it could not be read.
pub open spec fn list_entries(content: Option<Seq<char>>) -> Set<Name> {
    match content {
        Some(s) => entries(text::lines(s)),
        None => Set::empty(),
    }
}

/// The text of an optional string slice.
pub open spec fn optional_str(s: Option<&str>) -> Option<Seq<char>> {
    match s {
        Some(s) => Some(s@),
        None => None,
    }
}

/// Puts the names of a list into `set`, one per line and comments left out, in place of what it held.
/// A list that could not be read counts as empty.
pub fn load_file_lines(content: Option<&str>, set: &mut FastSet<String>)
    ensures
        final(set).wf(),
        final(set)@ == list_entries(optional_str(content)),
{
    set.clear();
    let s = match content {
        Some(s) => s,
        None => {
            return;
        },
    };
    let ghost all = text::lines(s@);
    let ghost mut k: int = 0;
    let mut rest = s;
    assert(all.skip(0) =~= all);
    assert(all.take(0) =~= Seq::<Seq<char>>::empty());
    loop
        invariant
            all == text::lines(s@),
            0 <= k <= all.len(),
            text::lines(rest@) == all.skip(k),
            set.wf(),
            set@ == entries(all.take(k)),
        ensures
            set.wf(),
            set@ == entries(all),
        decreases all.len() - k,
    {
        let ghost here = text::lines(rest@);
        match text::next_line(rest) {
            None => {
                assert(k == all.len());
                assert(all.take(k) =~= all);
                break;
            },
            Some((line, tail)) => {
                assert(here.len() >= 1);
                assert(here[0] == all[k]);
                assert(text::lines(tail@) =~= here.drop_first());
                assert(here.drop_first() =~= all.skip(k + 1));
                assert(all.take(k + 1).drop_last() =~= all.take(k));
                let name = text::trim(line);
                if !name.is_empty() && !text::starts_with_char(name, '#') {
                    let _ = set.insert(name.to_owned());
                }
                rest = tail;
            },
        }
        proof {
            k = k + 1;
        }
    }
}

impl DaemonModel {
    /// The state after the configuration was read. What a file sets that could not be read stays as it
    /// is, but a list that could not be read is empty.
    pub open spec fn after_reload(
        self,
        config: Option<Seq<char>>,
        exclude: Option<Seq<char>>,
        games: Option<Seq<char>>,
    ) -> DaemonModel {
        DaemonModel {
            config: match config {
                Some(s) => self.config.after_lines(text::lines(s)),
                None => self.config,
            },
            user_exclusions: list_entries(exclude),
            games: list_entries(games),
            ..self
        }
    }
}

// ---------------------------------------------------------------------------
// Default apps
// ---------------------------------------------------------------------------
/// What is asked of the system to find its default apps.
#[derive(Debug, Clone, Copy, PartialEq, Eq, Structural)]
pub enum ComponentQuery {
    HomeRole,
    DialerRole,
    SmsRole,
    /// The home activity, for systems that know no roles.
    HomeActivity,
    InputMethod,
    Wallpaper,
}

impl ComponentQuery {
    /// The apps that an answer names.
    pub open spec fn names_in(self, stdout: Seq<char>) -> Seq<Name> {
        match self {
            ComponentQuery::HomeRole | ComponentQuery::DialerRole | ComponentQuery::SmsRole =>
            system::holders(text::lines(stdout)),
            ComponentQuery::HomeActivity => match system::activity_lines(text::lines(stdout)) {
                Some(pkg) => seq![pkg],
                None => Seq::empty(),
            },
            ComponentQuery::InputMethod | ComponentQuery::Wallpaper => match system::setting_pkg(
                stdout,
            ) {
                Some(pkg) => seq![pkg],
                None => Seq::empty(),
            },
        }
    }

    /// What is asked next, where `home_found` says whether an app holds the home role. The home activity
    /// is asked for only where none does.
    pub open spec fn following(self, home_found: bool) -> Option<ComponentQuery> {
        match self {
            ComponentQuery::HomeRole => Some(ComponentQuery::DialerRole),
            ComponentQuery::DialerRole => Some(ComponentQuery::SmsRole),
            ComponentQuery::SmsRole => if home_found {
                Some(ComponentQuery::InputMethod)
            } else {
                Some(ComponentQuery::HomeActivity)
            },
            ComponentQuery::HomeActivity => Some(ComponentQuery::InputMethod),
            ComponentQuery::InputMethod => Some(ComponentQuery::Wallpaper),
            ComponentQuery::Wallpaper => None,
        }
    }

    /// What is asked next, where `home_found` says whether an app holds the home role.
    pub fn next(self, home_found: bool) -> (r: Option<ComponentQuery>)
        ensures
            r == self.following(home_found),
    {
        match self {
            ComponentQuery::HomeRole => Some(ComponentQuery::DialerRole),
            ComponentQuery::DialerRole => Some(ComponentQuery::SmsRole),
            ComponentQuery::SmsRole => if home_found {
                Some(ComponentQuery::InputMethod)
            } else {
                Some(ComponentQuery::HomeActivity)
            },
            ComponentQuery::HomeActivity => Some(ComponentQuery::InputMethod),
            ComponentQuery::InputMethod => Some(ComponentQuery::Wallpaper),
            ComponentQuery::Wallpaper => None,
        }
    }

    /// Whether an app is known to hold the home role, where an answer names so many apps and `before` says
    /// whether one was known already.
    pub fn home_found_after(self, found: usize, before: bool) -> (r: bool)
        ensures
            r == (before || (self == ComponentQuery::HomeRole && found > 0)),
    {
        match self {
            ComponentQuery::HomeRole => before || found > 0,
            _ => before,
        }
    }

    fn parse(self, stdout: &str) -> (found: Vec<String>)
        ensures
            system::texts(found@) == self.names_in(stdout@),
    {
        let one = match self {
            ComponentQuery::HomeRole | ComponentQuery::DialerRole | ComponentQuery::SmsRole => {
                return system::parse_role_holders(stdout);
            },
            ComponentQuery::HomeActivity => system::parse_resolve_activity_pkg(stdout),
            ComponentQuery::InputMethod | ComponentQuery::Wallpaper => system::parse_secure_setting(
                stdout,
            ),
        };
        let mut found: Vec<String> = Vec::new();
        if let Some(pkg) = one {
            found.push(pkg.to_owned());
        }
        assert(system::texts(found@) =~= self.names_in(stdout@));
        found
    }
}

impl DaemonModel {
    /// The state after an answer: the apps that it names are excluded.
    pub open spec fn after_answer(self, query: ComponentQuery, stdout: Seq<char>) -> DaemonModel {
        DaemonModel {
            dynamic_exclusions: self.dynamic_exclusions.union(query.names_in(stdout).to_set()),
            ..self
        }
    }
}

// ---------------------------------------------------------------------------
// Processes that run already
// ---------------------------------------------------------------------------
/// The predicate that holds of the byte 0.
pub open spec fn zero_byte() -> spec_fn(u8) -> bool {
    |b: u8| b == 0
}

/// The name of the process that a `cmdline` file tells, where it can be that of an app: it has a dot in
/// it, and starts with neither a slash nor a hyphen.
pub open spec fn cmdline_process(cmdline: Seq<u8>) -> Option<Seq<char>> {
    match text::utf8_text(cmdline.take(text::first_index(cmdline, zero_byte()))) {
        Some(s) => {
            let name = text::trimmed(s);
            if name.contains('.') && !parser::begins(name, '/') && !parser::begins(name, '-')
                && !parser::begins(parser::base_package(name), '-') {
                Some(name)
            } else {
                None
            }
        },
        None => None,
    }
}

impl DaemonModel {
    /// The state after a process was found that runs already. It is indexed, but it cannot be evicted:
    /// since when it is idle is not known.
    pub open spec fn after_seed(self, pid: u32, uid: u32, cmdline: Seq<u8>) -> DaemonModel {
        match cmdline_process(cmdline) {
            Some(name) => {
                let pkg = parser::base_package(name);
                DaemonModel {
                    owner: self.owner.insert(pid, pkg),
                    pids: self.pids.insert(pkg, self.pids_of(pkg).insert(pid)),
                    uids: self.uids.insert(pkg, uid),
                    ..self
                }
            },
            None => self,
        }
    }
}

/// The name of the process that a `cmdline` file tells, where it can be that of an app.
pub fn parse_cmdline(cmdline: &[u8]) -> (r: Option<&str>)
    ensures
        match r {
            Some(name) => cmdline_process(cmdline@) == Some(name@),
            None => cmdline_process(cmdline@) is None,
        },
{
    let mut end: usize = 0;
    while end < cmdline.len() && cmdline[end] != 0
        invariant
            end <= cmdline@.len(),
            forall|i: int| 0 <= i < end ==> !zero_byte()(#[trigger] cmdline@[i]),
        decreases cmdline@.len() - end,
    {
        end = end + 1;
    }
    proof {
        text::lemma_first_index_is(cmdline@, zero_byte(), end as int);
    }
    let (head, _) = cmdline.split_at(end);
    assert(head@ =~= cmdline@.take(end as int));
    match text::from_bytes(head) {
        None => None,
        Some(s) => {
            let name = text::trim(s);
            if text::contains_char(name, '.') && !text::starts_with_char(name, '/')
                && !text::starts_with_char(name, '-') && !text::starts_with_char(
                parser::package_of(name),
                '-',
            ) {
                Some(name)
            } else {
                None
            }
        },
    }
}

impl DaemonState {
    /// The state at the start, before the configuration is read and the processes that run already are
    /// indexed. `total_ram_mb` is the physical memory and `now` the time.
    pub fn new(
        act_mode: bool,
        screen_on: bool,
        total_ram_mb: u64,
        page_size_kb: u64,
        now: u64,
    ) -> (state: Self)
        ensures
            state.wf(),
            state@ == DaemonModel::initial(
                (RuntimeConfig {
                    max_kills_per_pass: if total_ram_mb <= 4608 {
                        4
                    } else if total_ram_mb <= 8704 {
                        2
                    } else {
                        1
                    },
                    ..RuntimeConfig::standard()
                }),
                act_mode,
                screen_on,
                page_size_kb,
                now,
            ),
    {
        let mut config = RuntimeConfig::default();
        config.max_kills_per_pass = default_max_kills(total_ram_mb);
        let state = DaemonState {
            config,
            alive_apps: FastMap::new(),
            pid_to_pkg: FastMap::new(),
            pkg_to_pids: FastMap::new(),
            pkg_to_uid: FastMap::new(),
            recent_deaths: FastMap::new(),
            user_exclusions: FastSet::new(),
            games: FastSet::new(),
            dynamic_exclusions: FastSet::new(),
            fg_lru: VecDeque::new(),
            current_fg: None,
            fg_since: None,
            screen_on_start: if screen_on {
                Some(now)
            } else {
                None
            },
            screen_off_start: if screen_on {
                None
            } else {
                Some(now)
            },
            game_session_start: None,
            session_start: now,
            last_event_epoch: now,
            session_stats: SessionStats::default(),
            page_size_kb,
            game_intrusion_count: 0,
            screen_on,
            is_gaming: false,
            act_mode,
        };
        assert(state@ =~= DaemonModel::initial(config, act_mode, screen_on, page_size_kb, now));
        state
    }

    /// Reads the configuration anew, from what its three files hold. Returns the record of the change,
    /// if the parameters changed or this is the first time.
    pub fn reload_configs(
        &mut self,
        config: Option<&str>,
        exclude: Option<&str>,
        games: Option<&str>,
        first: bool,
        now_epoch: u64,
    ) -> (record: Option<Record>)
        requires
            old(self).wf(),
        ensures
            final(self).wf(),
            final(self)@ == old(self)@.after_reload(
                optional_str(config),
                optional_str(exclude),
                optional_str(games),
            ),
            match record {
                Some(r) => {
                    &&& first || final(self)@.config != old(self)@.config
                    &&& r@ == RecordModel::ConfigReload {
                        ts: now_epoch,
                        config: final(self)@.config,
                    }
                },
                None => !first && final(self)@.config == old(self)@.config,
            },
    {
        let before = self.config;
        if let Some(s) = config {
            self.config.parse_str(s);
        }
        load_file_lines(exclude, &mut self.user_exclusions);
        load_file_lines(games, &mut self.games);
        assert(self@ =~= old(self)@.after_reload(
            optional_str(config),
            optional_str(exclude),
            optional_str(games),
        ));
        if first || self.config != before {
            Some(Record::ConfigReload { ts: now_epoch, config: self.config })
        } else {
            None
        }
    }

    /// Whether the log is to be written: the configuration asks for it, and `no_log` does not forbid it.
    pub fn log_wanted(&self, no_log: bool) -> (yes: bool)
        ensures
            yes == (self@.config.log_enabled && !no_log),
    {
        self.config.log_enabled && !no_log
    }

    /// Indexes a process that runs already, from its user and what its `cmdline` file holds. It cannot
    /// be evicted until it is seen in the foreground or started again.
    pub fn seed_process(&mut self, pid: u32, uid: u32, cmdline: &[u8])
        requires
            old(self).wf(),
        ensures
            final(self).wf(),
            final(self)@ == old(self)@.after_seed(pid, uid, cmdline@),
    {
        if let Some(name) = parse_cmdline(cmdline) {
            let pkg = parser::package_of(name);
            self.add_pid(pid, pkg);
            let _ = self.pkg_to_uid.insert(pkg.to_owned(), uid);
            assert(self@ =~= old(self)@.after_seed(pid, uid, cmdline@));
        }
    }

    /// Forgets the default apps, before they are looked up anew.
    pub fn clear_system_components(&mut self)
        requires
            old(self).wf(),
        ensures
            final(self).wf(),
            final(self)@ == (DaemonModel { dynamic_exclusions: Set::empty(), ..old(self)@ }),
    {
        self.dynamic_exclusions.clear();
        assert(self@ =~= (DaemonModel { dynamic_exclusions: Set::empty(), ..old(self)@ }));
    }

    /// Excludes the apps that the answer to a query names. Returns them.
    pub fn take_answer(&mut self, query: ComponentQuery, stdout: &str) -> (found: Vec<String>)
        requires
            old(self).wf(),
        ensures
            final(self).wf(),
            system::texts(found@) == query.names_in(stdout@),
            final(self)@ == old(self)@.after_answer(query, stdout@),
    {
        let found = query.parse(stdout);
        let ghost names = system::texts(found@);
        let ghost before = self@.dynamic_exclusions;
        let mut i: usize = 0;
        assert(names.take(0).to_set() =~= Set::<Name>::empty());
        assert(before.union(Set::<Name>::empty()) =~= before);
        while i < found.len()
            invariant
                i <= found@.len(),
                names == system::texts(found@),
                self.wf(),
                self@ == (DaemonModel {
                    dynamic_exclusions: before.union(names.take(i as int).to_set()),
                    ..old(self)@
                }),
            decreases found@.len() - i,
        {
            let ghost some = names.take(i as int);
            let ghost name = names[i as int];
            let _ = self.dynamic_exclusions.insert(found[i].clone());
            proof {
                assert(names.take(i + 1) =~= some.push(name));
                assert forall|p: Name| some.push(name).to_set().contains(p)
                    == some.to_set().insert(name).contains(p) by {
                    if some.contains(p) {
                        let u = choose|u: int| 0 <= u < some.len() && some[u] == p;
                        assert(some.push(name)[u] == p);
                    }
                    if p == name {
                        assert(some.push(name)[some.len() as int] == p);
                    }
                }
                assert(self@.dynamic_exclusions =~= before.union(names.take(i + 1).to_set()));
                assert(self@ =~= (DaemonModel {
                    dynamic_exclusions: before.union(names.take(i + 1).to_set()),
                    ..old(self)@
                }));
            }
            i = i + 1;
        }
        assert(names.take(names.len() as int) =~= names);
        found
    }
}

} // verus!

//! Every record as a JSON object and as a row of the table: what it says, and in which words.
use vstd::prelude::*;

use crate::config::RuntimeConfig;
use crate::records;
use crate::records::{KillModel, Reason, RecordModel};
use crate::render;
use crate::telemetry;
use crate::telemetry::SessionStats;

verus! {

/// A JSON string, where `s` is what stands between its quotes.
pub open spec fn quoted(s: Seq<char>) -> Seq<char> {
    seq!['"'] + s + seq!['"']
}

/// A member of a JSON object.
pub open spec fn member(key: Seq<char>, value: Seq<char>) -> Seq<char> {
    seq!['"'] + key + seq!['"', ':'] + value
}

/// A JSON object without the brace at its end.
pub open spec fn opened(members: Seq<(Seq<char>, Seq<char>)>) -> Seq<char>
    decreases members.len(),
{
    if members.len() == 0 {
        seq!['{']
    } else if members.len() == 1 {
        seq!['{'] + member(members[0].0, members[0].1)
    } else {
        opened(members.drop_last()) + seq![','] + member(members.last().0, members.last().1)
    }
}

/// A JSON object with these members, in this order.
pub open spec fn object(members: Seq<(Seq<char>, Seq<char>)>) -> Seq<char> {
    opened(members) + seq!['}']
}

/// What stands between two values: the end of the one, the name of the next member, and the start of its value.
spec fn literal(closer: Seq<char>, key: Seq<char>, opener: Seq<char>) -> Seq<char> {
    closer + seq![',', '"'] + key + seq!['"', ':'] + opener
}

proof fn lemma_member(
    acc: Seq<char>,
    closer: Seq<char>,
    members: Seq<(Seq<char>, Seq<char>)>,
    key: Seq<char>,
    opener: Seq<char>,
    val: Seq<char>,
    ender: Seq<char>,
    value: Seq<char>,
)
    requires
        members.len() > 0,
        acc + closer == opened(members),
        value =~= opener + val + ender,
    ensures
        (acc + literal(closer, key, opener) + val) + ender == opened(members.push((key, value))),
{
    let all = members.push((key, value));
    assert(all.drop_last() =~= members);
    assert(opened(all) == opened(members) + seq![','] + member(key, value));
    assert((acc + literal(closer, key, opener) + val) + ender =~= (acc + closer) + seq![','] + member(
        key,
        value,
    ));
}

proof fn lemma_end(acc: Seq<char>, closer: Seq<char>, members: Seq<(Seq<char>, Seq<char>)>)
    requires
        acc + closer == opened(members),
    ensures
        acc + (closer + seq!['}']) == object(members),
{
    assert(acc + (closer + seq!['}']) =~= (acc + closer) + seq!['}']);
}

proof fn lemma_head(ts: u64, event: Seq<char>)
    ensures
        records::json_head(ts, event) == opened(
            seq![("ts"@, render::decimal(ts as nat)), ("event"@, quoted(event))],
        ),
{
    let d = render::decimal(ts as nat);
    let one = seq![("ts"@, d)];
    let two = seq![("ts"@, d), ("event"@, quoted(event))];
    reveal_strlit("{\"ts\":");
    reveal_strlit(",\"event\":\"");
    reveal_strlit("\"");
    reveal_strlit("ts");
    reveal_strlit("event");
    assert(two.drop_last() =~= one);
    assert("{\"ts\":"@ =~= seq!['{', '"'] + "ts"@ + seq!['"', ':']);
    assert(",\"event\":\""@ =~= seq![',', '"'] + "event"@ + seq!['"', ':', '"']);
    assert("\""@ =~= seq!['"']);
    assert(opened(one) == seq!['{'] + member("ts"@, d));
    assert(opened(two) == opened(one) + seq![','] + member("event"@, quoted(event)));
    assert(records::json_head(ts, event) =~= opened(two));
}

/// A summary tells its interval, what was counted, and the memory of what started.
#[verifier::rlimit(50)]
pub proof fn law_bg_summary_as_json(ts: u64, interval_sec: u64, stats: SessionStats)
    ensures
        ({
            (RecordModel::BgSummary { ts, interval_sec, stats }).json() == object(seq![
                ("ts"@, render::decimal(ts as nat)),
                ("event"@, quoted("bg_summary"@)),
                ("interval_sec"@, render::decimal(interval_sec as nat)),
                ("spawns"@, render::decimal(stats.bg_spawns as nat)),
                ("deaths"@, render::decimal(stats.bg_deaths as nat)),
                ("spawn_rss_kb"@, render::signed(stats.spawn_rss_kb as int)),
            ])
        }),
{
    lemma_head(ts, "bg_summary"@);
    let m0 = seq![("ts"@, render::decimal(ts as nat)), ("event"@, quoted("bg_summary"@))];
    let a0 = records::json_head(ts, "bg_summary"@);
    assert(a0 + Seq::<char>::empty() =~= a0);
    let l1 = ",\"interval_sec\":"@;
    assert(l1 =~= literal(Seq::<char>::empty(), "interval_sec"@, Seq::<char>::empty())) by {
        reveal_strlit(",\"interval_sec\":");
        reveal_strlit("interval_sec");
    }
    let a1 = a0 + l1 + render::decimal(interval_sec as nat);
    let m1 = m0.push(("interval_sec"@, render::decimal(interval_sec as nat)));
    lemma_member(
        a0,
        Seq::<char>::empty(),
        m0,
        "interval_sec"@,
        Seq::<char>::empty(),
        render::decimal(interval_sec as nat),
        Seq::<char>::empty(),
        render::decimal(interval_sec as nat),
    );
    let l2 = ",\"spawns\":"@;
    assert(l2 =~= literal(Seq::<char>::empty(), "spawns"@, Seq::<char>::empty())) by {
        reveal_strlit(",\"spawns\":");
        reveal_strlit("spawns");
    }
    let a2 = a1 + l2 + render::decimal(stats.bg_spawns as nat);
    let m2 = m1.push(("spawns"@, render::decimal(stats.bg_spawns as nat)));
    lemma_member(
        a1,
        Seq::<char>::empty(),
        m1,
        "spawns"@,
        Seq::<char>::empty(),
        render::decimal(stats.bg_spawns as nat),
        Seq::<char>::empty(),
        render::decimal(stats.bg_spawns as nat),
    );
    let l3 = ",\"deaths\":"@;
    assert(l3 =~= literal(Seq::<char>::empty(), "deaths"@, Seq::<char>::empty())) by {
        reveal_strlit(",\"deaths\":");
        reveal_strlit("deaths");
    }
    let a3 = a2 + l3 + render::decimal(stats.bg_deaths as nat);
    let m3 = m2.push(("deaths"@, render::decimal(stats.bg_deaths as nat)));
    lemma_member(
        a2,
        Seq::<char>::empty(),
        m2,
        "deaths"@,
        Seq::<char>::empty(),
        render::decimal(stats.bg_deaths as nat),
        Seq::<char>::empty(),
        render::decimal(stats.bg_deaths as nat),
    );
    let l4 = ",\"spawn_rss_kb\":"@;
    assert(l4 =~= literal(Seq::<char>::empty(), "spawn_rss_kb"@, Seq::<char>::empty())) by {
        reveal_strlit(",\"spawn_rss_kb\":");
        reveal_strlit("spawn_rss_kb");
    }
    let a4 = a3 + l4 + render::signed(stats.spawn_rss_kb as int);
    let m4 = m3.push(("spawn_rss_kb"@, render::signed(stats.spawn_rss_kb as int)));
    lemma_member(
        a3,
        Seq::<char>::empty(),
        m3,
        "spawn_rss_kb"@,
        Seq::<char>::empty(),
        render::signed(stats.spawn_rss_kb as int),
        Seq::<char>::empty(),
        render::signed(stats.spawn_rss_kb as int),
    );
    let end = "}"@;
    assert(end =~= Seq::<char>::empty() + seq!['}']) by {
        reveal_strlit("}");
    }
    lemma_end(a4, Seq::<char>::empty(), m4);
    assert((RecordModel::BgSummary { ts, interval_sec, stats }).json() == a4 + end);
    assert(m4 =~= seq![
        ("ts"@, render::decimal(ts as nat)),
        ("event"@, quoted("bg_summary"@)),
        ("interval_sec"@, render::decimal(interval_sec as nat)),
        ("spawns"@, render::decimal(stats.bg_spawns as nat)),
        ("deaths"@, render::decimal(stats.bg_deaths as nat)),
        ("spawn_rss_kb"@, render::signed(stats.spawn_rss_kb as int)),
    ]);
}

/// A new configuration is told with every parameter.
#[verifier::rlimit(50)]
pub proof fn law_config_reload_as_json(ts: u64, config: RuntimeConfig)
    ensures
        ({
            (RecordModel::ConfigReload { ts, config }).json() == object(seq![
                ("ts"@, render::decimal(ts as nat)),
                ("event"@, quoted("config_reload"@)),
                ("t_idle_sec"@, render::decimal(config.t_idle_sec as nat)),
                ("lru_protect_depth"@, render::decimal(config.lru_protect_depth as nat)),
                ("mem_critical_percent"@, render::decimal(config.mem_critical_percent as nat)),
                ("fg_lru_max_depth"@, render::decimal(config.fg_lru_max_depth as nat)),
                ("screen_off_harvest"@, render::boolean(config.screen_off_harvest)),
                ("max_kills_per_pass"@, render::decimal(config.max_kills_per_pass as nat)),
                ("min_oom_score_adj"@, render::signed(config.min_oom_score_adj as int)),
                ("log_enabled"@, render::boolean(config.log_enabled)),
            ])
        }),
{
    lemma_head(ts, "config_reload"@);
    let m0 = seq![("ts"@, render::decimal(ts as nat)), ("event"@, quoted("config_reload"@))];
    let a0 = records::json_head(ts, "config_reload"@);
    assert(a0 + Seq::<char>::empty() =~= a0);
    let l1 = ",\"t_idle_sec\":"@;
    assert(l1 =~= literal(Seq::<char>::empty(), "t_idle_sec"@, Seq::<char>::empty())) by {
        reveal_strlit(",\"t_idle_sec\":");
        reveal_strlit("t_idle_sec");
    }
    let a1 = a0 + l1 + render::decimal(config.t_idle_sec as nat);
    let m1 = m0.push(("t_idle_sec"@, render::decimal(config.t_idle_sec as nat)));
    lemma_member(
        a0,
        Seq::<char>::empty(),
        m0,
        "t_idle_sec"@,
        Seq::<char>::empty(),
        render::decimal(config.t_idle_sec as nat),
        Seq::<char>::empty(),
        render::decimal(config.t_idle_sec as nat),
    );
    let l2 = ",\"lru_protect_depth\":"@;
    assert(l2 =~= literal(Seq::<char>::empty(), "lru_protect_depth"@, Seq::<char>::empty())) by {
        reveal_strlit(",\"lru_protect_depth\":");
        reveal_strlit("lru_protect_depth");
    }
    let a2 = a1 + l2 + render::decimal(config.lru_protect_depth as nat);
    let m2 = m1.push(("lru_protect_depth"@, render::decimal(config.lru_protect_depth as nat)));
    lemma_member(
        a1,
        Seq::<char>::empty(),
        m1,
        "lru_protect_depth"@,
        Seq::<char>::empty(),
        render::decimal(config.lru_protect_depth as nat),
        Seq::<char>::empty(),
        render::decimal(config.lru_protect_depth as nat),
    );
    let l3 = ",\"mem_critical_percent\":"@;
    assert(l3 =~= literal(Seq::<char>::empty(), "mem_critical_percent"@, Seq::<char>::empty())) by {
        reveal_strlit(",\"mem_critical_percent\":");
        reveal_strlit("mem_critical_percent");
    }
    let a3 = a2 + l3 + render::decimal(config.mem_critical_percent as nat);
    let m3 = m2.push(("mem_critical_percent"@, render::decimal(config.mem_critical_percent as nat)));
    lemma_member(
        a2,
        Seq::<char>::empty(),
        m2,
        "mem_critical_percent"@,
        Seq::<char>::empty(),
        render::decimal(config.mem_critical_percent as nat),
        Seq::<char>::empty(),
        render::decimal(config.mem_critical_percent as nat),
    );
    let l4 = ",\"fg_lru_max_depth\":"@;
    assert(l4 =~= literal(Seq::<char>::empty(), "fg_lru_max_depth"@, Seq::<char>::empty())) by {
        reveal_strlit(",\"fg_lru_max_depth\":");
        reveal_strlit("fg_lru_max_depth");
    }
    let a4 = a3 + l4 + render::decimal(config.fg_lru_max_depth as nat);
    let m4 = m3.push(("fg_lru_max_depth"@, render::decimal(config.fg_lru_max_depth as nat)));
    lemma_member(
        a3,
        Seq::<char>::empty(),
        m3,
        "fg_lru_max_depth"@,
        Seq::<char>::empty(),
        render::decimal(config.fg_lru_max_depth as nat),
        Seq::<char>::empty(),
        render::decimal(config.fg_lru_max_depth as nat),
    );
    let l5 = ",\"screen_off_harvest\":"@;
    assert(l5 =~= literal(Seq::<char>::empty(), "screen_off_harvest"@, Seq::<char>::empty())) by {
        reveal_strlit(",\"screen_off_harvest\":");
        reveal_strlit("screen_off_harvest");
    }
    let a5 = a4 + l5 + render::boolean(config.screen_off_harvest);
    let m5 = m4.push(("screen_off_harvest"@, render::boolean(config.screen_off_harvest)));
    lemma_member(
        a4,
        Seq::<char>::empty(),
        m4,
        "screen_off_harvest"@,
        Seq::<char>::empty(),
        render::boolean(config.screen_off_harvest),
        Seq::<char>::empty(),
        render::boolean(config.screen_off_harvest),
    );
    let l6 = ",\"max_kills_per_pass\":"@;
    assert(l6 =~= literal(Seq::<char>::empty(), "max_kills_per_pass"@, Seq::<char>::empty())) by {
        reveal_strlit(",\"max_kills_per_pass\":");
        reveal_strlit("max_kills_per_pass");
    }
    let a6 = a5 + l6 + render::decimal(config.max_kills_per_pass as nat);
    let m6 = m5.push(("max_kills_per_pass"@, render::decimal(config.max_kills_per_pass as nat)));
    lemma_member(
        a5,
        Seq::<char>::empty(),
        m5,
        "max_kills_per_pass"@,
        Seq::<char>::empty(),
        render::decimal(config.max_kills_per_pass as nat),
        Seq::<char>::empty(),
        render::decimal(config.max_kills_per_pass as nat),
    );
    let l7 = ",\"min_oom_score_adj\":"@;
    assert(l7 =~= literal(Seq::<char>::empty(), "min_oom_score_adj"@, Seq::<char>::empty())) by {
        reveal_strlit(",\"min_oom_score_adj\":");
        reveal_strlit("min_oom_score_adj");
    }
    let a7 = a6 + l7 + render::signed(config.min_oom_score_adj as int);
    let m7 = m6.push(("min_oom_score_adj"@, render::signed(config.min_oom_score_adj as int)));
    lemma_member(
        a6,
        Seq::<char>::empty(),
        m6,
        "min_oom_score_adj"@,
        Seq::<char>::empty(),
        render::signed(config.min_oom_score_adj as int),
        Seq::<char>::empty(),
        render::signed(config.min_oom_score_adj as int),
    );
    let l8 = ",\"log_enabled\":"@;
    assert(l8 =~= literal(Seq::<char>::empty(), "log_enabled"@, Seq::<char>::empty())) by {
        reveal_strlit(",\"log_enabled\":");
        reveal_strlit("log_enabled");
    }
    let a8 = a7 + l8 + render::boolean(config.log_enabled);
    let m8 = m7.push(("log_enabled"@, render::boolean(config.log_enabled)));
    lemma_member(
        a7,
        Seq::<char>::empty(),
        m7,
        "log_enabled"@,
        Seq::<char>::empty(),
        render::boolean(config.log_enabled),
        Seq::<char>::empty(),
        render::boolean(config.log_enabled),
    );
    let end = "}"@;
    assert(end =~= Seq::<char>::empty() + seq!['}']) by {
        reveal_strlit("}");
    }
    lemma_end(a8, Seq::<char>::empty(), m8);
    assert((RecordModel::ConfigReload { ts, config }).json() == a8 + end);
    assert(m8 =~= seq![
        ("ts"@, render::decimal(ts as nat)),
        ("event"@, quoted("config_reload"@)),
        ("t_idle_sec"@, render::decimal(config.t_idle_sec as nat)),
        ("lru_protect_depth"@, render::decimal(config.lru_protect_depth as nat)),
        ("mem_critical_percent"@, render::decimal(config.mem_critical_percent as nat)),
        ("fg_lru_max_depth"@, render::decimal(config.fg_lru_max_depth as nat)),
        ("screen_off_harvest"@, render::boolean(config.screen_off_harvest)),
        ("max_kills_per_pass"@, render::decimal(config.max_kills_per_pass as nat)),
        ("min_oom_score_adj"@, render::signed(config.min_oom_score_adj as int)),
        ("log_enabled"@, render::boolean(config.log_enabled)),
    ]);
}

/// A game that starts is told by its name.
#[verifier::rlimit(50)]
pub proof fn law_game_start_as_json(ts: u64, pkg: Seq<char>)
    ensures
        ({
            (RecordModel::GameStart { ts, pkg }).json() == object(seq![
                ("ts"@, render::decimal(ts as nat)),
                ("event"@, quoted("game_session_start"@)),
                ("pkg"@, quoted(telemetry::escaped(pkg))),
            ])
        }),
{
    lemma_head(ts, "game_session_start"@);
    let m0 = seq![("ts"@, render::decimal(ts as nat)), ("event"@, quoted("game_session_start"@))];
    let a0 = records::json_head(ts, "game_session_start"@);
    assert(a0 + Seq::<char>::empty() =~= a0);
    let l1 = ",\"pkg\":\""@;
    assert(l1 =~= literal(Seq::<char>::empty(), "pkg"@, seq!['"'])) by {
        reveal_strlit(",\"pkg\":\"");
        reveal_strlit("pkg");
    }
    let a1 = a0 + l1 + telemetry::escaped(pkg);
    let m1 = m0.push(("pkg"@, quoted(telemetry::escaped(pkg))));
    lemma_member(
        a0,
        Seq::<char>::empty(),
        m0,
        "pkg"@,
        seq!['"'],
        telemetry::escaped(pkg),
        seq!['"'],
        quoted(telemetry::escaped(pkg)),
    );
    let end = "\"}"@;
    assert(end =~= seq!['"'] + seq!['}']) by {
        reveal_strlit("\"}");
    }
    lemma_end(a1, seq!['"'], m1);
    assert((RecordModel::GameStart { ts, pkg }).json() == a1 + end);
    assert(m1 =~= seq![
        ("ts"@, render::decimal(ts as nat)),
        ("event"@, quoted("game_session_start"@)),
        ("pkg"@, quoted(telemetry::escaped(pkg))),
    ]);
}

/// A game that ends is told with how long it was and how many intrusions it had.
#[verifier::rlimit(50)]
pub proof fn law_game_end_as_json(ts: u64, duration_sec: u64, intrusions: u32)
    ensures
        ({
            (RecordModel::GameEnd { ts, duration_sec, intrusions }).json() == object(seq![
                ("ts"@, render::decimal(ts as nat)),
                ("event"@, quoted("game_session_end"@)),
                ("duration_sec"@, render::decimal(duration_sec as nat)),
                ("intrusions"@, render::decimal(intrusions as nat)),
            ])
        }),
{
    lemma_head(ts, "game_session_end"@);
    let m0 = seq![("ts"@, render::decimal(ts as nat)), ("event"@, quoted("game_session_end"@))];
    let a0 = records::json_head(ts, "game_session_end"@);
    assert(a0 + Seq::<char>::empty() =~= a0);
    let l1 = ",\"duration_sec\":"@;
    assert(l1 =~= literal(Seq::<char>::empty(), "duration_sec"@, Seq::<char>::empty())) by {
        reveal_strlit(",\"duration_sec\":");
        reveal_strlit("duration_sec");
    }
    let a1 = a0 + l1 + render::decimal(duration_sec as nat);
    let m1 = m0.push(("duration_sec"@, render::decimal(duration_sec as nat)));
    lemma_member(
        a0,
        Seq::<char>::empty(),
        m0,
        "duration_sec"@,
        Seq::<char>::empty(),
        render::decimal(duration_sec as nat),
        Seq::<char>::empty(),
        render::decimal(duration_sec as nat),
    );
    let l2 = ",\"intrusions\":"@;
    assert(l2 =~= literal(Seq::<char>::empty(), "intrusions"@, Seq::<char>::empty())) by {
        reveal_strlit(",\"intrusions\":");
        reveal_strlit("intrusions");
    }
    let a2 = a1 + l2 + render::decimal(intrusions as nat);
    let m2 = m1.push(("intrusions"@, render::decimal(intrusions as nat)));
    lemma_member(
        a1,
        Seq::<char>::empty(),
        m1,
        "intrusions"@,
        Seq::<char>::empty(),
        render::decimal(intrusions as nat),
        Seq::<char>::empty(),
        render::decimal(intrusions as nat),
    );
    let end = "}"@;
    assert(end =~= Seq::<char>::empty() + seq!['}']) by {
        reveal_strlit("}");
    }
    lemma_end(a2, Seq::<char>::empty(), m2);
    assert((RecordModel::GameEnd { ts, duration_sec, intrusions }).json() == a2 + end);
    assert(m2 =~= seq![
        ("ts"@, render::decimal(ts as nat)),
        ("event"@, quoted("game_session_end"@)),
        ("duration_sec"@, render::decimal(duration_sec as nat)),
        ("intrusions"@, render::decimal(intrusions as nat)),
    ]);
}

/// A switch of the foreground tells the app and its component, how long the one before was there, and whether
/// it is a game.
#[verifier::rlimit(50)]
pub proof fn law_fg_switch_as_json(
    ts: u64,
    pkg: Seq<char>,
    component: Seq<char>,
    prev: Option<Seq<char>>,
    prev_dur_ms: u64,
    is_game: bool,
)
    ensures
        ({
            (RecordModel::FgSwitch { ts, pkg, component, prev, prev_dur_ms, is_game }).json() == object(seq![
                ("ts"@, render::decimal(ts as nat)),
                ("event"@, quoted("fg_switch"@)),
                ("pkg"@, quoted(telemetry::escaped(pkg))),
                ("component"@, quoted(telemetry::escaped(component))),
                ("prev_dur_ms"@, render::decimal(prev_dur_ms as nat)),
                ("is_game"@, render::boolean(is_game)),
            ])
        }),
{
    lemma_head(ts, "fg_switch"@);
    let m0 = seq![("ts"@, render::decimal(ts as nat)), ("event"@, quoted("fg_switch"@))];
    let a0 = records::json_head(ts, "fg_switch"@);
    assert(a0 + Seq::<char>::empty() =~= a0);
    let l1 = ",\"pkg\":\""@;
    assert(l1 =~= literal(Seq::<char>::empty(), "pkg"@, seq!['"'])) by {
        reveal_strlit(",\"pkg\":\"");
        reveal_strlit("pkg");
    }
    let a1 = a0 + l1 + telemetry::escaped(pkg);
    let m1 = m0.push(("pkg"@, quoted(telemetry::escaped(pkg))));
    lemma_member(
        a0,
        Seq::<char>::empty(),
        m0,
        "pkg"@,
        seq!['"'],
        telemetry::escaped(pkg),
        seq!['"'],
        quoted(telemetry::escaped(pkg)),
    );
    let l2 = "\",\"component\":\""@;
    assert(l2 =~= literal(seq!['"'], "component"@, seq!['"'])) by {
        reveal_strlit("\",\"component\":\"");
        reveal_strlit("component");
    }
    let a2 = a1 + l2 + telemetry::escaped(component);
    let m2 = m1.push(("component"@, quoted(telemetry::escaped(component))));
    lemma_member(
        a1,
        seq!['"'],
        m1,
        "component"@,
        seq!['"'],
        telemetry::escaped(component),
        seq!['"'],
        quoted(telemetry::escaped(component)),
    );
    let l3 = "\",\"prev_dur_ms\":"@;
    assert(l3 =~= literal(seq!['"'], "prev_dur_ms"@, Seq::<char>::empty())) by {
        reveal_strlit("\",\"prev_dur_ms\":");
        reveal_strlit("prev_dur_ms");
    }
    let a3 = a2 + l3 + render::decimal(prev_dur_ms as nat);
    let m3 = m2.push(("prev_dur_ms"@, render::decimal(prev_dur_ms as nat)));
    lemma_member(
        a2,
        seq!['"'],
        m2,
        "prev_dur_ms"@,
        Seq::<char>::empty(),
        render::decimal(prev_dur_ms as nat),
        Seq::<char>::empty(),
        render::decimal(prev_dur_ms as nat),
    );
    let l4 = ",\"is_game\":"@;
    assert(l4 =~= literal(Seq::<char>::empty(), "is_game"@, Seq::<char>::empty())) by {
        reveal_strlit(",\"is_game\":");
        reveal_strlit("is_game");
    }
    let a4 = a3 + l4 + render::boolean(is_game);
    let m4 = m3.push(("is_game"@, render::boolean(is_game)));
    lemma_member(
        a3,
        Seq::<char>::empty(),
        m3,
        "is_game"@,
        Seq::<char>::empty(),
        render::boolean(is_game),
        Seq::<char>::empty(),
        render::boolean(is_game),
    );
    let end = "}"@;
    assert(end =~= Seq::<char>::empty() + seq!['}']) by {
        reveal_strlit("}");
    }
    lemma_end(a4, Seq::<char>::empty(), m4);
    assert((RecordModel::FgSwitch { ts, pkg, component, prev, prev_dur_ms, is_game }).json() == a4 + end);
    assert(m4 =~= seq![
        ("ts"@, render::decimal(ts as nat)),
        ("event"@, quoted("fg_switch"@)),
        ("pkg"@, quoted(telemetry::escaped(pkg))),
        ("component"@, quoted(telemetry::escaped(component))),
        ("prev_dur_ms"@, render::decimal(prev_dur_ms as nat)),
        ("is_game"@, render::boolean(is_game)),
    ]);
}

/// An intrusion tells the process with its ids, its app, its type, its memory, and whether the app is excluded.
#[verifier::rlimit(50)]
pub proof fn law_game_intrusion_as_json(
    ts: u64,
    pid: u32,
    uid: u32,
    pkg: Seq<char>,
    proc_name: Seq<char>,
    spawn_type: Seq<char>,
    rss_kb: u64,
    excluded: bool,
)
    ensures
        ({
            let r = RecordModel::GameIntrusion {
                ts,
                pid,
                uid,
                pkg,
                proc_name,
                spawn_type,
                rss_kb,
                excluded,
            };
            r.json() == object(seq![
                ("ts"@, render::decimal(ts as nat)),
                ("event"@, quoted("game_intrusion"@)),
                ("pid"@, render::decimal(pid as nat)),
                ("uid"@, render::decimal(uid as nat)),
                ("pkg"@, quoted(telemetry::escaped(pkg))),
                ("proc"@, quoted(telemetry::escaped(proc_name))),
                ("type"@, quoted(telemetry::escaped(spawn_type))),
                ("rss_kb"@, render::decimal(rss_kb as nat)),
                ("excluded"@, render::boolean(excluded)),
            ])
        }),
{
    lemma_head(ts, "game_intrusion"@);
    let m0 = seq![("ts"@, render::decimal(ts as nat)), ("event"@, quoted("game_intrusion"@))];
    let a0 = records::json_head(ts, "game_intrusion"@);
    assert(a0 + Seq::<char>::empty() =~= a0);
    let l1 = ",\"pid\":"@;
    assert(l1 =~= literal(Seq::<char>::empty(), "pid"@, Seq::<char>::empty())) by {
        reveal_strlit(",\"pid\":");
        reveal_strlit("pid");
    }
    let a1 = a0 + l1 + render::decimal(pid as nat);
    let m1 = m0.push(("pid"@, render::decimal(pid as nat)));
    lemma_member(
        a0,
        Seq::<char>::empty(),
        m0,
        "pid"@,
        Seq::<char>::empty(),
        render::decimal(pid as nat),
        Seq::<char>::empty(),
        render::decimal(pid as nat),
    );
    let l2 = ",\"uid\":"@;
    assert(l2 =~= literal(Seq::<char>::empty(), "uid"@, Seq::<char>::empty())) by {
        reveal_strlit(",\"uid\":");
        reveal_strlit("uid");
    }
    let a2 = a1 + l2 + render::decimal(uid as nat);
    let m2 = m1.push(("uid"@, render::decimal(uid as nat)));
    lemma_member(
        a1,
        Seq::<char>::empty(),
        m1,
        "uid"@,
        Seq::<char>::empty(),
        render::decimal(uid as nat),
        Seq::<char>::empty(),
        render::decimal(uid as nat),
    );
    let l3 = ",\"pkg\":\""@;
    assert(l3 =~= literal(Seq::<char>::empty(), "pkg"@, seq!['"'])) by {
        reveal_strlit(",\"pkg\":\"");
        reveal_strlit("pkg");
    }
    let a3 = a2 + l3 + telemetry::escaped(pkg);
    let m3 = m2.push(("pkg"@, quoted(telemetry::escaped(pkg))));
    lemma_member(
        a2,
        Seq::<char>::empty(),
        m2,
        "pkg"@,
        seq!['"'],
        telemetry::escaped(pkg),
        seq!['"'],
        quoted(telemetry::escaped(pkg)),
    );
    let l4 = "\",\"proc\":\""@;
    assert(l4 =~= literal(seq!['"'], "proc"@, seq!['"'])) by {
        reveal_strlit("\",\"proc\":\"");
        reveal_strlit("proc");
    }
    let a4 = a3 + l4 + telemetry::escaped(proc_name);
    let m4 = m3.push(("proc"@, quoted(telemetry::escaped(proc_name))));
    lemma_member(
        a3,
        seq!['"'],
        m3,
        "proc"@,
        seq!['"'],
        telemetry::escaped(proc_name),
        seq!['"'],
        quoted(telemetry::escaped(proc_name)),
    );
    let l5 = "\",\"type\":\""@;
    assert(l5 =~= literal(seq!['"'], "type"@, seq!['"'])) by {
        reveal_strlit("\",\"type\":\"");
        reveal_strlit("type");
    }
    let a5 = a4 + l5 + telemetry::escaped(spawn_type);
    let m5 = m4.push(("type"@, quoted(telemetry::escaped(spawn_type))));
    lemma_member(
        a4,
        seq!['"'],
        m4,
        "type"@,
        seq!['"'],
        telemetry::escaped(spawn_type),
        seq!['"'],
        quoted(telemetry::escaped(spawn_type)),
    );
    let l6 = "\",\"rss_kb\":"@;
    assert(l6 =~= literal(seq!['"'], "rss_kb"@, Seq::<char>::empty())) by {
        reveal_strlit("\",\"rss_kb\":");
        reveal_strlit("rss_kb");
    }
    let a6 = a5 + l6 + render::decimal(rss_kb as nat);
    let m6 = m5.push(("rss_kb"@, render::decimal(rss_kb as nat)));
    lemma_member(
        a5,
        seq!['"'],
        m5,
        "rss_kb"@,
        Seq::<char>::empty(),
        render::decimal(rss_kb as nat),
        Seq::<char>::empty(),
        render::decimal(rss_kb as nat),
    );
    let l7 = ",\"excluded\":"@;
    assert(l7 =~= literal(Seq::<char>::empty(), "excluded"@, Seq::<char>::empty())) by {
        reveal_strlit(",\"excluded\":");
        reveal_strlit("excluded");
    }
    let a7 = a6 + l7 + render::boolean(excluded);
    let m7 = m6.push(("excluded"@, render::boolean(excluded)));
    lemma_member(
        a6,
        Seq::<char>::empty(),
        m6,
        "excluded"@,
        Seq::<char>::empty(),
        render::boolean(excluded),
        Seq::<char>::empty(),
        render::boolean(excluded),
    );
    let end = "}"@;
    assert(end =~= Seq::<char>::empty() + seq!['}']) by {
        reveal_strlit("}");
    }
    lemma_end(a7, Seq::<char>::empty(), m7);
    let r = RecordModel::GameIntrusion {
        ts,
        pid,
        uid,
        pkg,
        proc_name,
        spawn_type,
        rss_kb,
        excluded,
    };
    assert(r.json() == a7 + end);
    assert(m7 =~= seq![
        ("ts"@, render::decimal(ts as nat)),
        ("event"@, quoted("game_intrusion"@)),
        ("pid"@, render::decimal(pid as nat)),
        ("uid"@, render::decimal(uid as nat)),
        ("pkg"@, quoted(telemetry::escaped(pkg))),
        ("proc"@, quoted(telemetry::escaped(proc_name))),
        ("type"@, quoted(telemetry::escaped(spawn_type))),
        ("rss_kb"@, render::decimal(rss_kb as nat)),
        ("excluded"@, render::boolean(excluded)),
    ]);
}

/// A respawn tells the app, how long it was gone, and the new process.
#[verifier::rlimit(50)]
pub proof fn law_respawn_as_json(
    ts: u64,
    pkg: Seq<char>,
    gap_ms: u64,
    pid: u32,
    uid: u32,
    spawn_type: Seq<char>,
)
    ensures
        ({
            (RecordModel::Respawn { ts, pkg, gap_ms, pid, uid, spawn_type }).json() == object(seq![
                ("ts"@, render::decimal(ts as nat)),
                ("event"@, quoted("respawn"@)),
                ("pkg"@, quoted(telemetry::escaped(pkg))),
                ("gap_ms"@, render::decimal(gap_ms as nat)),
                ("pid"@, render::decimal(pid as nat)),
                ("uid"@, render::decimal(uid as nat)),
                ("type"@, quoted(telemetry::escaped(spawn_type))),
            ])
        }),
{
    lemma_head(ts, "respawn"@);
    let m0 = seq![("ts"@, render::decimal(ts as nat)), ("event"@, quoted("respawn"@))];
    let a0 = records::json_head(ts, "respawn"@);
    assert(a0 + Seq::<char>::empty() =~= a0);
    let l1 = ",\"pkg\":\""@;
    assert(l1 =~= literal(Seq::<char>::empty(), "pkg"@, seq!['"'])) by {
        reveal_strlit(",\"pkg\":\"");
        reveal_strlit("pkg");
    }
    let a1 = a0 + l1 + telemetry::escaped(pkg);
    let m1 = m0.push(("pkg"@, quoted(telemetry::escaped(pkg))));
    lemma_member(
        a0,
        Seq::<char>::empty(),
        m0,
        "pkg"@,
        seq!['"'],
        telemetry::escaped(pkg),
        seq!['"'],
        quoted(telemetry::escaped(pkg)),
    );
    let l2 = "\",\"gap_ms\":"@;
    assert(l2 =~= literal(seq!['"'], "gap_ms"@, Seq::<char>::empty())) by {
        reveal_strlit("\",\"gap_ms\":");
        reveal_strlit("gap_ms");
    }
    let a2 = a1 + l2 + render::decimal(gap_ms as nat);
    let m2 = m1.push(("gap_ms"@, render::decimal(gap_ms as nat)));
    lemma_member(
        a1,
        seq!['"'],
        m1,
        "gap_ms"@,
        Seq::<char>::empty(),
        render::decimal(gap_ms as nat),
        Seq::<char>::empty(),
        render::decimal(gap_ms as nat),
    );
    let l3 = ",\"pid\":"@;
    assert(l3 =~= literal(Seq::<char>::empty(), "pid"@, Seq::<char>::empty())) by {
        reveal_strlit(",\"pid\":");
        reveal_strlit("pid");
    }
    let a3 = a2 + l3 + render::decimal(pid as nat);
    let m3 = m2.push(("pid"@, render::decimal(pid as nat)));
    lemma_member(
        a2,
        Seq::<char>::empty(),
        m2,
        "pid"@,
        Seq::<char>::empty(),
        render::decimal(pid as nat),
        Seq::<char>::empty(),
        render::decimal(pid as nat),
    );
    let l4 = ",\"uid\":"@;
    assert(l4 =~= literal(Seq::<char>::empty(), "uid"@, Seq::<char>::empty())) by {
        reveal_strlit(",\"uid\":");
        reveal_strlit("uid");
    }
    let a4 = a3 + l4 + render::decimal(uid as nat);
    let m4 = m3.push(("uid"@, render::decimal(uid as nat)));
    lemma_member(
        a3,
        Seq::<char>::empty(),
        m3,
        "uid"@,
        Seq::<char>::empty(),
        render::decimal(uid as nat),
        Seq::<char>::empty(),
        render::decimal(uid as nat),
    );
    let l5 = ",\"type\":\""@;
    assert(l5 =~= literal(Seq::<char>::empty(), "type"@, seq!['"'])) by {
        reveal_strlit(",\"type\":\"");
        reveal_strlit("type");
    }
    let a5 = a4 + l5 + telemetry::escaped(spawn_type);
    let m5 = m4.push(("type"@, quoted(telemetry::escaped(spawn_type))));
    lemma_member(
        a4,
        Seq::<char>::empty(),
        m4,
        "type"@,
        seq!['"'],
        telemetry::escaped(spawn_type),
        seq!['"'],
        quoted(telemetry::escaped(spawn_type)),
    );
    let end = "\"}"@;
    assert(end =~= seq!['"'] + seq!['}']) by {
        reveal_strlit("\"}");
    }
    lemma_end(a5, seq!['"'], m5);
    assert((RecordModel::Respawn { ts, pkg, gap_ms, pid, uid, spawn_type }).json() == a5 + end);
    assert(m5 =~= seq![
        ("ts"@, render::decimal(ts as nat)),
        ("event"@, quoted("respawn"@)),
        ("pkg"@, quoted(telemetry::escaped(pkg))),
        ("gap_ms"@, render::decimal(gap_ms as nat)),
        ("pid"@, render::decimal(pid as nat)),
        ("uid"@, render::decimal(uid as nat)),
        ("type"@, quoted(telemetry::escaped(spawn_type))),
    ]);
}

/// A decision to evict an app tells the app and its processes, the memory that it has, why, how long it was
/// idle, its place in the history, whether the command was started, its score, and whether the system
/// protects it. It is called `kill` where kills are meant to happen and the system does not protect the app,
/// and it says by its name where one of these does not hold.
#[verifier::rlimit(50)]
pub proof fn law_kill_as_json(kill: KillModel)
    ensures
        ({
            let event = if kill.act_mode && !kill.ams_protected {
                "kill"@
            } else if kill.act_mode {
                "kill_skipped"@
            } else {
                "simulated_kill"@
            };
            let reason = match kill.reason {
                Reason::GameMode => "game_mode_escalation"@,
                Reason::LowMemory => "low_memory_escalation"@,
                Reason::IdleExpired => "idle_expired"@,
            };
            let spawned = match kill.spawned {
                Some(true) => "true"@,
                Some(false) => "false"@,
                None => "null"@,
            };
            (RecordModel::Kill(kill)).json() == object(seq![
                ("ts"@, render::decimal(kill.ts as nat)),
                ("event"@, quoted(event)),
                ("pkg"@, quoted(telemetry::escaped(kill.pkg))),
                ("pids"@, seq!['['] + records::pids_text(kill.pids) + seq![']']),
                ("rss_freed_est_kb"@, render::decimal(kill.rss_kb as nat)),
                ("reason"@, quoted(reason)),
                ("idle_sec"@, render::decimal(kill.idle_sec as nat)),
                ("lru_pos"@, render::decimal(kill.lru_pos as nat)),
                ("spawned"@, spawned),
                ("oom_score_adj"@, render::signed(kill.oom_adj as int)),
                ("ams_protected"@, render::boolean(kill.ams_protected)),
                ("spawn_skipped"@, render::boolean(!kill.act_mode || kill.ams_protected)),
            ])
        }),
{
    let event = if kill.act_mode && !kill.ams_protected {
        "kill"@
    } else if kill.act_mode {
        "kill_skipped"@
    } else {
        "simulated_kill"@
    };
    let reason = match kill.reason {
        Reason::GameMode => "game_mode_escalation"@,
        Reason::LowMemory => "low_memory_escalation"@,
        Reason::IdleExpired => "idle_expired"@,
    };
    let spawned = match kill.spawned {
        Some(true) => "true"@,
        Some(false) => "false"@,
        None => "null"@,
    };
    lemma_head(kill.ts, event);
    let m0 = seq![("ts"@, render::decimal(kill.ts as nat)), ("event"@, quoted(event))];
    let a0 = records::json_head(kill.ts, event);
    assert(a0 + Seq::<char>::empty() =~= a0);
    let l1 = ",\"pkg\":\""@;
    assert(l1 =~= literal(Seq::<char>::empty(), "pkg"@, seq!['"'])) by {
        reveal_strlit(",\"pkg\":\"");
        reveal_strlit("pkg");
    }
    let a1 = a0 + l1 + telemetry::escaped(kill.pkg);
    let m1 = m0.push(("pkg"@, quoted(telemetry::escaped(kill.pkg))));
    lemma_member(
        a0,
        Seq::<char>::empty(),
        m0,
        "pkg"@,
        seq!['"'],
        telemetry::escaped(kill.pkg),
        seq!['"'],
        quoted(telemetry::escaped(kill.pkg)),
    );
    let l2 = "\",\"pids\":["@;
    assert(l2 =~= literal(seq!['"'], "pids"@, seq!['['])) by {
        reveal_strlit("\",\"pids\":[");
        reveal_strlit("pids");
    }
    let a2 = a1 + l2 + records::pids_text(kill.pids);
    let m2 = m1.push(("pids"@, seq!['['] + records::pids_text(kill.pids) + seq![']']));
    lemma_member(
        a1,
        seq!['"'],
        m1,
        "pids"@,
        seq!['['],
        records::pids_text(kill.pids),
        seq![']'],
        seq!['['] + records::pids_text(kill.pids) + seq![']'],
    );
    let l3 = "],\"rss_freed_est_kb\":"@;
    assert(l3 =~= literal(seq![']'], "rss_freed_est_kb"@, Seq::<char>::empty())) by {
        reveal_strlit("],\"rss_freed_est_kb\":");
        reveal_strlit("rss_freed_est_kb");
    }
    let a3 = a2 + l3 + render::decimal(kill.rss_kb as nat);
    let m3 = m2.push(("rss_freed_est_kb"@, render::decimal(kill.rss_kb as nat)));
    lemma_member(
        a2,
        seq![']'],
        m2,
        "rss_freed_est_kb"@,
        Seq::<char>::empty(),
        render::decimal(kill.rss_kb as nat),
        Seq::<char>::empty(),
        render::decimal(kill.rss_kb as nat),
    );
    let l4 = ",\"reason\":\""@;
    assert(l4 =~= literal(Seq::<char>::empty(), "reason"@, seq!['"'])) by {
        reveal_strlit(",\"reason\":\"");
        reveal_strlit("reason");
    }
    let a4 = a3 + l4 + reason;
    let m4 = m3.push(("reason"@, quoted(reason)));
    lemma_member(
        a3,
        Seq::<char>::empty(),
        m3,
        "reason"@,
        seq!['"'],
        reason,
        seq!['"'],
        quoted(reason),
    );
    let l5 = "\",\"idle_sec\":"@;
    assert(l5 =~= literal(seq!['"'], "idle_sec"@, Seq::<char>::empty())) by {
        reveal_strlit("\",\"idle_sec\":");
        reveal_strlit("idle_sec");
    }
    let a5 = a4 + l5 + render::decimal(kill.idle_sec as nat);
    let m5 = m4.push(("idle_sec"@, render::decimal(kill.idle_sec as nat)));
    lemma_member(
        a4,
        seq!['"'],
        m4,
        "idle_sec"@,
        Seq::<char>::empty(),
        render::decimal(kill.idle_sec as nat),
        Seq::<char>::empty(),
        render::decimal(kill.idle_sec as nat),
    );
    let l6 = ",\"lru_pos\":"@;
    assert(l6 =~= literal(Seq::<char>::empty(), "lru_pos"@, Seq::<char>::empty())) by {
        reveal_strlit(",\"lru_pos\":");
        reveal_strlit("lru_pos");
    }
    let a6 = a5 + l6 + render::decimal(kill.lru_pos as nat);
    let m6 = m5.push(("lru_pos"@, render::decimal(kill.lru_pos as nat)));
    lemma_member(
        a5,
        Seq::<char>::empty(),
        m5,
        "lru_pos"@,
        Seq::<char>::empty(),
        render::decimal(kill.lru_pos as nat),
        Seq::<char>::empty(),
        render::decimal(kill.lru_pos as nat),
    );
    let l7 = ",\"spawned\":"@;
    assert(l7 =~= literal(Seq::<char>::empty(), "spawned"@, Seq::<char>::empty())) by {
        reveal_strlit(",\"spawned\":");
        reveal_strlit("spawned");
    }
    let a7 = a6 + l7 + spawned;
    let m7 = m6.push(("spawned"@, spawned));
    lemma_member(
        a6,
        Seq::<char>::empty(),
        m6,
        "spawned"@,
        Seq::<char>::empty(),
        spawned,
        Seq::<char>::empty(),
        spawned,
    );
    let l8 = ",\"oom_score_adj\":"@;
    assert(l8 =~= literal(Seq::<char>::empty(), "oom_score_adj"@, Seq::<char>::empty())) by {
        reveal_strlit(",\"oom_score_adj\":");
        reveal_strlit("oom_score_adj");
    }
    let a8 = a7 + l8 + render::signed(kill.oom_adj as int);
    let m8 = m7.push(("oom_score_adj"@, render::signed(kill.oom_adj as int)));
    lemma_member(
        a7,
        Seq::<char>::empty(),
        m7,
        "oom_score_adj"@,
        Seq::<char>::empty(),
        render::signed(kill.oom_adj as int),
        Seq::<char>::empty(),
        render::signed(kill.oom_adj as int),
    );
    let l9 = ",\"ams_protected\":"@;
    assert(l9 =~= literal(Seq::<char>::empty(), "ams_protected"@, Seq::<char>::empty())) by {
        reveal_strlit(",\"ams_protected\":");
        reveal_strlit("ams_protected");
    }
    let a9 = a8 + l9 + render::boolean(kill.ams_protected);
    let m9 = m8.push(("ams_protected"@, render::boolean(kill.ams_protected)));
    lemma_member(
        a8,
        Seq::<char>::empty(),
        m8,
        "ams_protected"@,
        Seq::<char>::empty(),
        render::boolean(kill.ams_protected),
        Seq::<char>::empty(),
        render::boolean(kill.ams_protected),
    );
    let l10 = ",\"spawn_skipped\":"@;
    assert(l10 =~= literal(Seq::<char>::empty(), "spawn_skipped"@, Seq::<char>::empty())) by {
        reveal_strlit(",\"spawn_skipped\":");
        reveal_strlit("spawn_skipped");
    }
    let a10 = a9 + l10 + render::boolean(!kill.act_mode || kill.ams_protected);
    let m10 = m9.push(("spawn_skipped"@, render::boolean(!kill.act_mode || kill.ams_protected)));
    lemma_member(
        a9,
        Seq::<char>::empty(),
        m9,
        "spawn_skipped"@,
        Seq::<char>::empty(),
        render::boolean(!kill.act_mode || kill.ams_protected),
        Seq::<char>::empty(),
        render::boolean(!kill.act_mode || kill.ams_protected),
    );
    let end = "}"@;
    assert(end =~= Seq::<char>::empty() + seq!['}']) by {
        reveal_strlit("}");
    }
    lemma_end(a10, Seq::<char>::empty(), m10);
    assert((RecordModel::Kill(kill)).json() == a10 + end);
    assert(m10 =~= seq![
        ("ts"@, render::decimal(kill.ts as nat)),
        ("event"@, quoted(event)),
        ("pkg"@, quoted(telemetry::escaped(kill.pkg))),
        ("pids"@, seq!['['] + records::pids_text(kill.pids) + seq![']']),
        ("rss_freed_est_kb"@, render::decimal(kill.rss_kb as nat)),
        ("reason"@, quoted(reason)),
        ("idle_sec"@, render::decimal(kill.idle_sec as nat)),
        ("lru_pos"@, render::decimal(kill.lru_pos as nat)),
        ("spawned"@, spawned),
        ("oom_score_adj"@, render::signed(kill.oom_adj as int)),
        ("ams_protected"@, render::boolean(kill.ams_protected)),
        ("spawn_skipped"@, render::boolean(!kill.act_mode || kill.ams_protected)),
    ]);
}

/// The screen that is switched off is told with how many whole seconds it was on, and one that is switched on
/// with how many seconds it was off.
pub proof fn law_screen_as_json(ts: u64, active_ms: u64, off_sec: u64, active_sec: u64)
    requires
        active_sec * 1000 <= active_ms < active_sec * 1000 + 1000,
    ensures
        (RecordModel::ScreenOff { ts, active_ms }).json() == object(
            seq![
                ("ts"@, render::decimal(ts as nat)),
                ("event"@, quoted("screen_state"@)),
                ("state"@, quoted("OFF"@)),
                ("active_duration_sec"@, render::decimal(active_sec as nat)),
            ],
        ),
        (RecordModel::ScreenOn { ts, off_sec }).json() == object(
            seq![
                ("ts"@, render::decimal(ts as nat)),
                ("event"@, quoted("screen_state"@)),
                ("state"@, quoted("ON"@)),
                ("off_duration_sec"@, render::decimal(off_sec as nat)),
            ],
        ),
{
    assert(active_ms / 1000 == active_sec);
    lemma_screen(ts, "OFF"@, "active_duration_sec"@, render::decimal(active_sec as nat));
    lemma_screen(ts, "ON"@, "off_duration_sec"@, render::decimal(off_sec as nat));
    reveal_strlit("OFF");
    reveal_strlit("ON");
    reveal_strlit("state");
    reveal_strlit("active_duration_sec");
    reveal_strlit("off_duration_sec");
    reveal_strlit(",\"state\":\"OFF\",\"active_duration_sec\":");
    reveal_strlit(",\"state\":\"ON\",\"off_duration_sec\":");
    reveal_strlit("}");
    assert("}"@ =~= seq!['}']);
    assert(",\"state\":\"OFF\",\"active_duration_sec\":"@ =~= literal(
        Seq::empty(),
        "state"@,
        seq!['"'],
    ) + "OFF"@ + literal(seq!['"'], "active_duration_sec"@, Seq::empty()));
    assert(",\"state\":\"ON\",\"off_duration_sec\":"@ =~= literal(
        Seq::empty(),
        "state"@,
        seq!['"'],
    ) + "ON"@ + literal(seq!['"'], "off_duration_sec"@, Seq::empty()));
}

proof fn lemma_screen(ts: u64, state: Seq<char>, key: Seq<char>, val: Seq<char>)
    ensures
        records::json_head(ts, "screen_state"@) + (literal(Seq::empty(), "state"@, seq!['"']) + state
            + literal(seq!['"'], key, Seq::empty())) + val + seq!['}'] == object(
            seq![
                ("ts"@, render::decimal(ts as nat)),
                ("event"@, quoted("screen_state"@)),
                ("state"@, quoted(state)),
                (key, val),
            ],
        ),
{
    let none = Seq::<char>::empty();
    lemma_head(ts, "screen_state"@);
    let a0 = records::json_head(ts, "screen_state"@);
    let m0 = seq![("ts"@, render::decimal(ts as nat)), ("event"@, quoted("screen_state"@))];
    let l1 = literal(none, "state"@, seq!['"']);
    let l2 = literal(seq!['"'], key, none);
    assert(a0 + none =~= a0);
    lemma_member(a0, none, m0, "state"@, seq!['"'], state, seq!['"'], quoted(state));
    let m1 = m0.push(("state"@, quoted(state)));
    let a1 = a0 + l1 + state;
    lemma_member(a1, seq!['"'], m1, key, none, val, none, val);
    let m2 = m1.push((key, val));
    let a2 = a1 + l2 + val;
    lemma_end(a2, none, m2);
    assert(none + seq!['}'] =~= seq!['}']);
    assert(a0 + (l1 + state + l2) + val =~= a2);
    assert(m2 =~= seq![
        ("ts"@, render::decimal(ts as nat)),
        ("event"@, quoted("screen_state"@)),
        ("state"@, quoted(state)),
        (key, val),
    ]);
}

/// The processes stand in their order, with a comma and a space between two of them.
pub proof fn law_processes_as_json(pids: Seq<u32>, last: u32)
    ensures
        records::pids_text(Seq::empty()) == Seq::<char>::empty(),
        records::pids_text(seq![last]) == render::decimal(last as nat),
        pids.len() > 0 ==> records::pids_text(pids.push(last)) == records::pids_text(pids) + ", "@
            + render::decimal(last as nat),
{
    assert(pids.push(last).drop_last() =~= pids);
}

// ---------------------------------------------------------------------------
// Rows of the table
// ---------------------------------------------------------------------------
/// A row of the table: the time, what it is about, the app, and what there is to tell, in columns.
pub open spec fn columns(
    time: Seq<char>,
    tag: Seq<char>,
    app: Seq<char>,
    detail: Seq<char>,
) -> Seq<char> {
    render::padded(time, 12) + "   "@ + render::padded(tag, 12) + " "@ + render::padded(app, 26) + " "@
        + detail
}

/// Whether `mb` are the megabytes that are nearest to so many kilobytes.
pub open spec fn nearest_mb(kb: int, mb: nat) -> bool {
    1024 * mb - 512 <= kb < 1024 * mb + 512
}

/// The rows of what happens to the foreground, to games and to the screen. `seconds` is the text of the
/// duration that they tell.
pub proof fn law_rows_of_the_foreground(
    time: Seq<char>,
    seconds: Seq<char>,
    ts: u64,
    pkg: Seq<char>,
    component: Seq<char>,
    prev: Seq<char>,
    ms: u64,
    n: u64,
    intrusions: u32,
)
    ensures
        (RecordModel::FgSwitch { ts, pkg, component, prev: Some(prev), prev_dur_ms: ms, is_game: false }).row(
            time,
            seconds,
        ) == columns(time, "FG_SWITCH"@, pkg, "prev="@ + prev + " ("@ + seconds + "s)"@ + ""@),
        (RecordModel::FgSwitch { ts, pkg, component, prev: Some(prev), prev_dur_ms: ms, is_game: true }).row(
            time,
            seconds,
        ) == columns(time, "FG_SWITCH"@, pkg, "prev="@ + prev + " ("@ + seconds + "s)"@ + " [GAME]"@),
        (RecordModel::FgSwitch { ts, pkg, component, prev: None, prev_dur_ms: ms, is_game: false }).row(
            time,
            seconds,
        ) == columns(time, "FG_SWITCH"@, pkg, "cold_boot"@ + ""@),
        (RecordModel::FgSwitch { ts, pkg, component, prev: None, prev_dur_ms: ms, is_game: true }).row(
            time,
            seconds,
        ) == columns(time, "FG_SWITCH"@, pkg, "cold_boot"@ + " [GAME]"@),
        (RecordModel::GameStart { ts, pkg }).row(time, seconds) == columns(
            time,
            "GAME_START"@,
            pkg,
            "game_mode=active"@,
        ),
        (RecordModel::GameEnd { ts, duration_sec: n, intrusions }).row(time, seconds) == columns(
            time,
            "GAME_END"@,
            "--"@,
            "duration="@ + render::decimal(n as nat) + "s  intrusions="@ + render::decimal(
                intrusions as nat,
            ),
        ),
        (RecordModel::ScreenOff { ts, active_ms: ms }).row(time, seconds) == columns(
            time,
            "SCREEN_OFF"@,
            "--"@,
            "active_session="@ + seconds + "s"@,
        ),
        (RecordModel::ScreenOn { ts, off_sec: n }).row(time, seconds) == columns(
            time,
            "SCREEN_ON"@,
            "--"@,
            "sleep="@ + render::decimal(n as nat) + "s"@,
        ),
{
}

/// The rows of what happens in the background. Memory is told in megabytes, to the nearest.
pub proof fn law_rows_of_the_background(
    time: Seq<char>,
    seconds: Seq<char>,
    ts: u64,
    interval_sec: u64,
    stats: SessionStats,
    pkg: Seq<char>,
    proc_name: Seq<char>,
    spawn_type: Seq<char>,
    pid: u32,
    uid: u32,
    n: u64,
    excluded: bool,
    mb: nat,
)
    ensures
        stats.spawn_rss_kb >= 0 && nearest_mb(stats.spawn_rss_kb as int, mb) ==> (
        RecordModel::BgSummary { ts, interval_sec, stats }).row(time, seconds) == columns(
            time,
            "BG_SUMMARY"@,
            "--"@,
            "interval="@ + render::decimal(interval_sec as nat) + "s  spawns="@ + render::decimal(
                stats.bg_spawns as nat,
            ) + "  deaths="@ + render::decimal(stats.bg_deaths as nat) + "  rss_delta="@ + "+"@
                + render::decimal(mb) + "MB"@,
        ),
        stats.spawn_rss_kb < 0 && nearest_mb(-stats.spawn_rss_kb, mb) ==> (RecordModel::BgSummary {
            ts,
            interval_sec,
            stats,
        }).row(time, seconds) == columns(
            time,
            "BG_SUMMARY"@,
            "--"@,
            "interval="@ + render::decimal(interval_sec as nat) + "s  spawns="@ + render::decimal(
                stats.bg_spawns as nat,
            ) + "  deaths="@ + render::decimal(stats.bg_deaths as nat) + "  rss_delta="@ + "-"@
                + render::decimal(mb) + "MB"@,
        ),
        nearest_mb(n as int, mb) ==> (RecordModel::GameIntrusion {
            ts,
            pid,
            uid,
            pkg,
            proc_name,
            spawn_type,
            rss_kb: n,
            excluded,
        }).row(time, seconds) == columns(
            time,
            "GAME_INTRUDE"@,
            pkg,
            "type="@ + spawn_type + "  rss="@ + render::decimal(mb) + "MB  excluded="@ + (if excluded {
                "true"@
            } else {
                "false"@
            }),
        ),
        (RecordModel::Respawn { ts, pkg, gap_ms: n, pid, uid, spawn_type }).row(time, seconds) == columns(
            time,
            "RESPAWN"@,
            pkg,
            "gap="@ + render::decimal(n as nat) + "ms  pid="@ + render::decimal(pid as nat)
                + "  type="@ + spawn_type,
        ),
{
}

/// The row of a decision to evict an app: its memory in whole megabytes, how long it was idle, its score, its
/// place in the history and why, and at the end whether the command was not run, and for what.
#[verifier::rlimit(50)]
pub proof fn law_rows_of_decisions(time: Seq<char>, seconds: Seq<char>, kill: KillModel, mb: nat)
    requires
        1024 * mb <= kill.rss_kb < 1024 * mb + 1024,
    ensures
        ({
            let tag = if !kill.act_mode {
                "SIM_KILL"@
            } else if kill.ams_protected {
                "KILL_SKIP"@
            } else {
                "KILL"@
            };
            let reason = match kill.reason {
                Reason::GameMode => "game_mode_escalation"@,
                Reason::LowMemory => "low_memory_escalation"@,
                Reason::IdleExpired => "idle_expired"@,
            };
            let suffix = if kill.act_mode && !kill.ams_protected {
                ""@
            } else if kill.act_mode {
                " (ams_protected: spawn skipped)"@
            } else if !kill.ams_protected {
                " (simulated)"@
            } else {
                " (simulated, ams_protected: spawn skipped)"@
            };
            RecordModel::Kill(kill).row(time, seconds) == columns(
                time,
                tag,
                kill.pkg,
                "rss="@ + render::decimal(mb) + "MB  idle="@ + render::decimal(kill.idle_sec as nat)
                    + "s  adj="@ + render::signed(kill.oom_adj as int) + "  lru="@ + render::decimal(
                    kill.lru_pos as nat,
                ) + " ["@ + reason + "]"@ + suffix,
            )
        }),
{
    assert(kill.rss_kb / 1024 == mb);
}

/// The row of a new configuration, and the line that tells it at the start.
pub proof fn law_rows_of_the_configuration(
    time: Seq<char>,
    seconds: Seq<char>,
    ts: u64,
    config: RuntimeConfig,
)
    ensures
        ({
            let harvest = if config.screen_off_harvest {
                "true"@
            } else {
                "false"@
            };
            &&& (RecordModel::ConfigReload { ts, config }).row(time, seconds) == columns(
                time,
                "CONFIG_RELOAD"@,
                "--"@,
                "t_idle="@ + render::decimal(config.t_idle_sec as nat) + "s  lru_depth="@
                    + render::decimal(config.lru_protect_depth as nat) + "  mem_crit="@
                    + render::decimal(config.mem_critical_percent as nat) + "%  fg_lru_max="@
                    + render::decimal(config.fg_lru_max_depth as nat) + "  harvest="@ + harvest
                    + "  max_kills="@ + render::decimal(config.max_kills_per_pass as nat),
            )
            &&& config.summary() == "[CONFIG] Active: t_idle="@ + render::decimal(
                config.t_idle_sec as nat,
            ) + "s, lru_depth="@ + render::decimal(config.lru_protect_depth as nat) + ", mem_crit="@
                + render::decimal(config.mem_critical_percent as nat) + "%, fg_lru_max="@
                + render::decimal(config.fg_lru_max_depth as nat) + ", screen_off_harvest="@ + harvest
                + ", max_kills_per_pass="@ + render::decimal(config.max_kills_per_pass as nat)
                + ", min_oom_adj="@ + render::signed(config.min_oom_score_adj as int)
        }),
{
}

/// Every record tells its own time.
pub proof fn law_records_tell_their_time(r: RecordModel)
    ensures
        match r {
            RecordModel::BgSummary { ts, interval_sec, stats } => r.ts() == ts,
            RecordModel::ConfigReload { ts, config } => r.ts() == ts,
            RecordModel::GameStart { ts, pkg } => r.ts() == ts,
            RecordModel::GameEnd { ts, duration_sec, intrusions } => r.ts() == ts,
            RecordModel::FgSwitch { ts, pkg, component, prev, prev_dur_ms, is_game } => r.ts() == ts,
            RecordModel::GameIntrusion {
                ts,
                pid,
                uid,
                pkg,
                proc_name,
                spawn_type,
                rss_kb,
                excluded,
            } => r.ts() == ts,
            RecordModel::Respawn { ts, pkg, gap_ms, pid, uid, spawn_type } => r.ts() == ts,
            RecordModel::ScreenOff { ts, active_ms } => r.ts() == ts,
            RecordModel::ScreenOn { ts, off_sec } => r.ts() == ts,
            RecordModel::Kill(kill) => r.ts() == kill.ts,
        },
{
}

} // verus!

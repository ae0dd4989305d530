//! Every record of the log is one line of JSON.
use vstd::prelude::*;

use crate::records;
use crate::records::RecordModel;
use crate::render;
use crate::telemetry;

verus! {

/// Whether no control character stands in `s`, and so no end of a line.
#[verifier::opaque]
pub open spec fn printable(s: Seq<char>) -> bool {
    forall|i: int| 0 <= i < s.len() ==> #[trigger] s[i] as u32 >= 0x20
}

/// Whether no control character stands in `s` from `i` on.
spec fn printable_from(s: Seq<char>, i: int) -> bool
    decreases s.len() - i,
{
    i >= s.len() || (s[i] as u32 >= 0x20 && printable_from(s, i + 1))
}

proof fn lemma_printable_from(s: Seq<char>, i: int)
    requires
        0 <= i,
        printable_from(s, i),
    ensures
        forall|k: int| i <= k < s.len() ==> #[trigger] s[k] as u32 >= 0x20,
    decreases s.len() - i,
{
    if i < s.len() {
        lemma_printable_from(s, i + 1);
    }
}

proof fn lemma_printable(s: Seq<char>)
    requires
        printable_from(s, 0),
    ensures
        printable(s),
{
    reveal(printable);
    lemma_printable_from(s, 0);
}

broadcast proof fn lemma_joined(a: Seq<char>, b: Seq<char>)
    requires
        printable(a),
        printable(b),
    ensures
        #[trigger] printable(a + b),
{
    reveal(printable);
    assert forall|i: int| 0 <= i < (a + b).len() implies #[trigger] (a + b)[i] as u32 >= 0x20 by {
        if i < a.len() {
            assert((a + b)[i] == a[i]);
        } else {
            assert((a + b)[i] == b[i - a.len()]);
        }
    }
}

broadcast proof fn lemma_decimal(n: nat)
    ensures
        #[trigger] printable(render::decimal(n)),
    decreases n,
{
    reveal(printable);
    if n >= 10 {
        lemma_decimal(n / 10);
    }
}

broadcast proof fn lemma_signed(n: int)
    ensures
        #[trigger] printable(render::signed(n)),
{
    reveal(printable);
    if n < 0 {
        lemma_decimal((-n) as nat);
    } else {
        lemma_decimal(n as nat);
    }
}

broadcast proof fn lemma_escaped(s: Seq<char>)
    ensures
        #[trigger] printable(telemetry::escaped(s)),
{
    reveal(printable);
    telemetry::law_escaped_stays_inside(s);
}

proof fn lemma_words_1()
    ensures
        printable("game_mode_escalation"@),
        printable("low_memory_escalation"@),
        printable("idle_expired"@),
        printable("simulated_kill"@),
        printable("kill_skipped"@),
        printable("kill"@),
        printable(", "@),
        printable("null"@),
        printable("{\"ts\":"@),
        printable(",\"event\":\""@),
{
    reveal_with_fuel(printable_from, 42);
    reveal_strlit("game_mode_escalation");
    reveal_strlit("low_memory_escalation");
    reveal_strlit("idle_expired");
    reveal_strlit("simulated_kill");
    reveal_strlit("kill_skipped");
    reveal_strlit("kill");
    reveal_strlit(", ");
    reveal_strlit("null");
    reveal_strlit("{\"ts\":");
    reveal_strlit(",\"event\":\"");
    lemma_printable("game_mode_escalation"@);
    lemma_printable("low_memory_escalation"@);
    lemma_printable("idle_expired"@);
    lemma_printable("simulated_kill"@);
    lemma_printable("kill_skipped"@);
    lemma_printable("kill"@);
    lemma_printable(", "@);
    lemma_printable("null"@);
    lemma_printable("{\"ts\":"@);
    lemma_printable(",\"event\":\""@);
}

proof fn lemma_words_2()
    ensures
        printable("\""@),
        printable(",\"pkg\":\""@),
        printable("\",\"pids\":["@),
        printable("],\"rss_freed_est_kb\":"@),
        printable(",\"reason\":\""@),
        printable("\",\"idle_sec\":"@),
        printable(",\"lru_pos\":"@),
        printable(",\"spawned\":"@),
        printable(",\"oom_score_adj\":"@),
        printable(",\"ams_protected\":"@),
{
    reveal_with_fuel(printable_from, 42);
    reveal_strlit("\"");
    reveal_strlit(",\"pkg\":\"");
    reveal_strlit("\",\"pids\":[");
    reveal_strlit("],\"rss_freed_est_kb\":");
    reveal_strlit(",\"reason\":\"");
    reveal_strlit("\",\"idle_sec\":");
    reveal_strlit(",\"lru_pos\":");
    reveal_strlit(",\"spawned\":");
    reveal_strlit(",\"oom_score_adj\":");
    reveal_strlit(",\"ams_protected\":");
    lemma_printable("\""@);
    lemma_printable(",\"pkg\":\""@);
    lemma_printable("\",\"pids\":["@);
    lemma_printable("],\"rss_freed_est_kb\":"@);
    lemma_printable(",\"reason\":\""@);
    lemma_printable("\",\"idle_sec\":"@);
    lemma_printable(",\"lru_pos\":"@);
    lemma_printable(",\"spawned\":"@);
    lemma_printable(",\"oom_score_adj\":"@);
    lemma_printable(",\"ams_protected\":"@);
}

proof fn lemma_words_3()
    ensures
        printable(",\"spawn_skipped\":"@),
        printable("}"@),
        printable("bg_summary"@),
        printable(",\"interval_sec\":"@),
        printable(",\"spawns\":"@),
        printable(",\"deaths\":"@),
        printable(",\"spawn_rss_kb\":"@),
        printable("config_reload"@),
        printable(",\"t_idle_sec\":"@),
        printable(",\"lru_protect_depth\":"@),
{
    reveal_with_fuel(printable_from, 42);
    reveal_strlit(",\"spawn_skipped\":");
    reveal_strlit("}");
    reveal_strlit("bg_summary");
    reveal_strlit(",\"interval_sec\":");
    reveal_strlit(",\"spawns\":");
    reveal_strlit(",\"deaths\":");
    reveal_strlit(",\"spawn_rss_kb\":");
    reveal_strlit("config_reload");
    reveal_strlit(",\"t_idle_sec\":");
    reveal_strlit(",\"lru_protect_depth\":");
    lemma_printable(",\"spawn_skipped\":"@);
    lemma_printable("}"@);
    lemma_printable("bg_summary"@);
    lemma_printable(",\"interval_sec\":"@);
    lemma_printable(",\"spawns\":"@);
    lemma_printable(",\"deaths\":"@);
    lemma_printable(",\"spawn_rss_kb\":"@);
    lemma_printable("config_reload"@);
    lemma_printable(",\"t_idle_sec\":"@);
    lemma_printable(",\"lru_protect_depth\":"@);
}

proof fn lemma_words_4()
    ensures
        printable(",\"mem_critical_percent\":"@),
        printable(",\"fg_lru_max_depth\":"@),
        printable(",\"screen_off_harvest\":"@),
        printable(",\"max_kills_per_pass\":"@),
        printable(",\"min_oom_score_adj\":"@),
        printable(",\"log_enabled\":"@),
        printable("game_session_start"@),
        printable("\"}"@),
        printable("game_session_end"@),
        printable(",\"duration_sec\":"@),
{
    reveal_with_fuel(printable_from, 42);
    reveal_strlit(",\"mem_critical_percent\":");
    reveal_strlit(",\"fg_lru_max_depth\":");
    reveal_strlit(",\"screen_off_harvest\":");
    reveal_strlit(",\"max_kills_per_pass\":");
    reveal_strlit(",\"min_oom_score_adj\":");
    reveal_strlit(",\"log_enabled\":");
    reveal_strlit("game_session_start");
    reveal_strlit("\"}");
    reveal_strlit("game_session_end");
    reveal_strlit(",\"duration_sec\":");
    lemma_printable(",\"mem_critical_percent\":"@);
    lemma_printable(",\"fg_lru_max_depth\":"@);
    lemma_printable(",\"screen_off_harvest\":"@);
    lemma_printable(",\"max_kills_per_pass\":"@);
    lemma_printable(",\"min_oom_score_adj\":"@);
    lemma_printable(",\"log_enabled\":"@);
    lemma_printable("game_session_start"@);
    lemma_printable("\"}"@);
    lemma_printable("game_session_end"@);
    lemma_printable(",\"duration_sec\":"@);
}

proof fn lemma_words_5()
    ensures
        printable(",\"intrusions\":"@),
        printable("fg_switch"@),
        printable("\",\"component\":\""@),
        printable("\",\"prev_dur_ms\":"@),
        printable(",\"is_game\":"@),
        printable("game_intrusion"@),
        printable(",\"pid\":"@),
        printable(",\"uid\":"@),
        printable("\",\"proc\":\""@),
        printable("\",\"type\":\""@),
{
    reveal_with_fuel(printable_from, 42);
    reveal_strlit(",\"intrusions\":");
    reveal_strlit("fg_switch");
    reveal_strlit("\",\"component\":\"");
    reveal_strlit("\",\"prev_dur_ms\":");
    reveal_strlit(",\"is_game\":");
    reveal_strlit("game_intrusion");
    reveal_strlit(",\"pid\":");
    reveal_strlit(",\"uid\":");
    reveal_strlit("\",\"proc\":\"");
    reveal_strlit("\",\"type\":\"");
    lemma_printable(",\"intrusions\":"@);
    lemma_printable("fg_switch"@);
    lemma_printable("\",\"component\":\""@);
    lemma_printable("\",\"prev_dur_ms\":"@);
    lemma_printable(",\"is_game\":"@);
    lemma_printable("game_intrusion"@);
    lemma_printable(",\"pid\":"@);
    lemma_printable(",\"uid\":"@);
    lemma_printable("\",\"proc\":\""@);
    lemma_printable("\",\"type\":\""@);
}

proof fn lemma_words_6()
    ensures
        printable("\",\"rss_kb\":"@),
        printable(",\"excluded\":"@),
        printable("respawn"@),
        printable("\",\"gap_ms\":"@),
        printable(",\"type\":\""@),
        printable("screen_state"@),
        printable(",\"state\":\"OFF\",\"active_duration_sec\":"@),
        printable(",\"state\":\"ON\",\"off_duration_sec\":"@),
        printable("true"@),
        printable("false"@),
{
    reveal_with_fuel(printable_from, 42);
    reveal_strlit("\",\"rss_kb\":");
    reveal_strlit(",\"excluded\":");
    reveal_strlit("respawn");
    reveal_strlit("\",\"gap_ms\":");
    reveal_strlit(",\"type\":\"");
    reveal_strlit("screen_state");
    reveal_strlit(",\"state\":\"OFF\",\"active_duration_sec\":");
    reveal_strlit(",\"state\":\"ON\",\"off_duration_sec\":");
    reveal_strlit("true");
    reveal_strlit("false");
    lemma_printable("\",\"rss_kb\":"@);
    lemma_printable(",\"excluded\":"@);
    lemma_printable("respawn"@);
    lemma_printable("\",\"gap_ms\":"@);
    lemma_printable(",\"type\":\""@);
    lemma_printable("screen_state"@);
    lemma_printable(",\"state\":\"OFF\",\"active_duration_sec\":"@);
    lemma_printable(",\"state\":\"ON\",\"off_duration_sec\":"@);
    lemma_printable("true"@);
    lemma_printable("false"@);
}

proof fn lemma_pids(pids: Seq<u32>)
    ensures
        printable(records::pids_text(pids)),
    decreases pids.len(),
{
    broadcast use lemma_joined, lemma_decimal;

    lemma_words_1();
    if pids.len() == 0 {
        reveal(printable);
    } else if pids.len() > 1 {
        lemma_pids(pids.drop_last());
    }
}

/// A record of the log is one line: no control character stands in it, whatever the names in it hold.
pub proof fn law_records_are_single_lines(r: RecordModel)
    ensures
        printable(r.json()),
{
    broadcast use lemma_joined, lemma_decimal, lemma_signed, lemma_escaped;

    lemma_words_1();
    lemma_words_2();
    lemma_words_3();
    lemma_words_4();
    lemma_words_5();
    lemma_words_6();
    if let RecordModel::Kill(kill) = r {
        lemma_pids(kill.pids);
    }
}

} // verus!

use std::collections::BTreeSet;

use mini_lmk::daemon::DaemonState;

/// A small generator of numbers that only look random.
struct Dice(u64);

impl Dice {
    fn roll(&mut self, sides: u64) -> u64 {
        self.0 = self.0.wrapping_mul(6364136223846793005).wrapping_add(1442695040888963407);
        (self.0 >> 33) % sides
    }
}

fn line(dice: &mut Dice, now: u64) -> String {
    let head = format!("{}.{:03}  100  200 I ", now / 1000, now % 1000);
    let n = dice.roll(9);
    let pid = 1 + dice.roll(12);
    let tail = match dice.roll(10) {
        0..=3 => format!("wm_resume_activity: [0,1,2,com.app{}/.Main]", n),
        4..=6 => {
            let uid = if n < 3 { 1000 + n } else { 10_000 + n };
            format!("am_proc_start: [0,{},{},com.app{}:svc,service,{{}}]", pid, uid, n)
        }
        7 => format!("am_proc_died: [0,{},com.app{},900,16]", pid, n),
        8 => format!("screen_toggled: {}", dice.roll(2)),
        _ => "device_idle_light_step: []".to_string(),
    };
    head + &tail
}

fn check(d: &DaemonState) {
    for i in 0..d.pid_to_pkg.len() {
        let pid = *d.pid_to_pkg.key_at(i);
        let pkg = d.pid_to_pkg.get(&pid).unwrap();
        assert!(d.pkg_to_pids.get(pkg.as_str()).unwrap().contains(&pid), "the index is broken at {}", pid);
    }
    for i in 0..d.alive_apps.len() {
        let pkg = d.alive_apps.key_at(i);
        assert!(*d.pkg_to_uid.get(pkg.as_str()).unwrap() >= 10_000, "{} is not known as an app", pkg);
        assert!(!pkg.is_empty() && !pkg.starts_with('-'));
    }
    let distinct: BTreeSet<&String> = d.fg_lru.iter().collect();
    assert_eq!(distinct.len(), d.fg_lru.len());
    assert!(d.fg_lru.len() <= d.config.fg_lru_max_depth);
    assert_eq!(d.fg_lru.front(), d.current_fg.as_ref());
}

#[test]
fn what_holds_of_every_state() {
    for seed in 0..20u64 {
        let mut dice = Dice(seed);
        let mut now = 1_700_000_000_000u64;
        let mut d = DaemonState::new(true, true, 6000, 4, now);
        d.config.fg_lru_max_depth = 4;
        d.seed_process(50, 10_050, b"com.app1\0");
        d.seed_process(51, 1_000, b"com.app7\0");
        for _ in 0..400 {
            now += dice.roll(90_000);
            if dice.roll(50) == 0 {
                now -= 1_000_000;
            }
            let text = line(&mut dice, now);
            let (at, event) = d.dispatch_logcat_line(&text).unwrap();
            assert_eq!(at, now);
            let mut out = Vec::new();
            let reap = d.handle_event(&event, now, 2048, &mut out);
            check(&d);
            for record in &out {
                assert!(record.to_json().chars().all(|c| c as u32 >= 0x20));
            }
            if reap {
                let low_mem = dice.roll(4) == 0;
                let plan = d.plan_reaping(now, low_mem);
                let readings: Vec<Vec<u64>> =
                    plan.iter().map(|p| p.pids.iter().map(|_| dice.roll(4) * 1000).collect()).collect();
                let victims = d.select_victims(&plan, &readings);
                check(&d);
                assert!(victims.len() <= d.config.max_kills_per_pass);
                for pair in victims.windows(2) {
                    assert!(pair[0].total_rss_kb >= pair[1].total_rss_kb);
                    assert_ne!(pair[0].pkg, pair[1].pkg);
                }
                for victim in &victims {
                    assert!(victim.idle_sec >= 10 && victim.total_rss_kb > 0);
                    assert!(d.current_fg.as_ref() != Some(&victim.pkg));
                    let scores: Vec<Option<i32>> =
                        victim.live_pids.iter().map(|_| Some(880 + dice.roll(40) as i32)).collect();
                    let verdict = d.judge(victim, &scores);
                    if verdict.kill {
                        assert!(scores.iter().all(|s| s.unwrap() >= 900));
                    }
                    d.conclude(victim, verdict, verdict.kill, now, low_mem);
                    assert_eq!(d.alive_apps.contains_key(victim.pkg.as_str()), verdict.ams_protected);
                }
                check(&d);
            }
        }
    }
}

use procmaps::aggregate::{aggregate_totals, grand_total, ratio_permille, sat_add, top_n};
use procmaps::app::App;
use procmaps::process::Process;

fn snapshot(text: &str) -> Process {
    Process::from_parts(42, "demo", text).unwrap()
}

#[test]
fn rss_totals_group_sum_and_rank() {
    let text = "1000-2000 r-xp 00000000 08:01 5 /bin/a\n\
                Rss: 10 kB\n\
                3000-4000 rw-p 00000000 08:01 5 /bin/a\n\
                Rss: 30 kB\n\
                5000-6000 rw-p 00000000 00:00 0 [heap]\n\
                Rss: 25 kB\n\
                7000-8000 rw-p 00000000 00:00 0\n\
                Rss: 50 kB\n";
    let p = snapshot(text);
    let totals = p.get_rss_totals();
    assert_eq!(
        totals,
        vec![
            (String::from("[anonymous]"), 50),
            (String::from("/bin/a"), 40),
            (String::from("[heap]"), 25),
        ]
    );
    let total = grand_total(&totals);
    assert_eq!(total, 115);
    let sum: u64 = totals.iter().map(|g| g.1).sum();
    assert_eq!(sum, total);
}

#[test]
fn ties_rank_by_ascending_label() {
    let text = "1000-2000 r-xp 00000000 08:01 5 /bin/b\n\
                Rss: 10 kB\n\
                3000-4000 r-xp 00000000 08:01 6 /bin/a\n\
                Rss: 10 kB\n\
                5000-6000 rw-p 00000000 00:00 0 [heap]\n\
                Rss: 10 kB\n";
    let totals = snapshot(text).get_rss_totals();
    assert_eq!(
        totals,
        vec![
            (String::from("/bin/a"), 10),
            (String::from("/bin/b"), 10),
            (String::from("[heap]"), 10),
        ]
    );
}

#[test]
fn deleted_and_live_mappings_of_one_path_share_a_group() {
    let text = "1000-2000 r-xp 00000000 08:01 5 /lib/x.so\n\
                Rss: 7 kB\n\
                3000-4000 r-xp 00000000 08:01 5 /lib/x.so (deleted)\n\
                Rss: 5 kB\n";
    let totals = snapshot(text).get_rss_totals();
    assert_eq!(totals, vec![(String::from("/lib/x.so"), 12)]);
}

#[test]
fn absent_counter_means_every_group_is_zero() {
    let text = "1000-2000 r-xp 00000000 08:01 5 /bin/a\n\
                3000-4000 rw-p 00000000 00:00 0 [heap]\n";
    let p = snapshot(text);
    let totals = p.get_rss_totals();
    assert_eq!(
        totals,
        vec![(String::from("/bin/a"), 0), (String::from("[heap]"), 0)]
    );
    let total = grand_total(&totals);
    assert_eq!(total, 0);
    for g in &totals {
        assert_eq!(ratio_permille(g.1, total), 0);
    }
}

#[test]
fn other_counters_can_drive_the_grouping() {
    let text = "1000-2000 r-xp 00000000 08:01 5 /bin/a\n\
                Rss: 1 kB\n\
                Swap: 90 kB\n\
                3000-4000 rw-p 00000000 00:00 0 [heap]\n\
                Swap: 10 kB\n";
    let p = snapshot(text);
    let by_swap = aggregate_totals(&p.memory_regions, "Swap");
    assert_eq!(
        by_swap,
        vec![(String::from("/bin/a"), 90), (String::from("[heap]"), 10)]
    );
}

#[test]
fn ratios_lie_between_zero_and_one_thousand() {
    assert_eq!(ratio_permille(0, 0), 0);
    assert_eq!(ratio_permille(50, 100), 500);
    assert_eq!(ratio_permille(1, 3), 333);
    assert_eq!(ratio_permille(100, 100), 1000);
    assert_eq!(ratio_permille(0, 7), 0);
}

#[test]
fn saturating_addition_caps_at_the_maximum() {
    assert_eq!(sat_add(1, 2), 3);
    assert_eq!(sat_add(u64::MAX, 1), u64::MAX);
    assert_eq!(sat_add(u64::MAX - 5, 10), u64::MAX);
}

#[test]
fn top_n_truncates_after_ranking() {
    let text = "1000-2000 r-xp 00000000 08:01 5 /bin/a\n\
                Rss: 1 kB\n\
                3000-4000 rw-p 00000000 00:00 0 [heap]\n\
                Rss: 3 kB\n\
                5000-6000 rw-p 00000000 00:00 0 [stack]\n\
                Rss: 2 kB\n";
    let totals = snapshot(text).get_rss_totals();
    let full_total = grand_total(&totals);
    let top = top_n(totals, 2);
    assert_eq!(
        top,
        vec![(String::from("[heap]"), 3), (String::from("[stack]"), 2)]
    );
    assert_eq!(full_total, 6);
    let longer = top_n(top.clone(), 10);
    assert_eq!(longer, top);
}

#[test]
fn app_exits_only_on_q() {
    let p = snapshot("1000-2000 rw-p 00000000 00:00 0 [heap]\n");
    let mut app = App::new(p);
    assert!(!app.should_exit());
    app.handle_key_char('x');
    assert!(!app.should_exit());
    app.handle_key_char('q');
    assert!(app.should_exit());

    let p2 = snapshot("1000-2000 rw-p 00000000 00:00 0 [heap]\n");
    let mut app2 = App::new(p2);
    app2.handle_key_char('Q');
    assert!(app2.should_exit());
}

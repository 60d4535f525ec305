use vllm_coldstart_operator::exposition::{family_samples, total_name};
use vllm_coldstart_operator::fleet_types::NodeStateSpec;
use vllm_coldstart_operator::reporter::{
    assemble, counter_reading, energy_for_tokens, gpu_source, node_report, node_setting_name, pick_setting,
    report_interval_secs, required_setting, scrape_targets, DeviceReading, GpuRound, GpuSource,
    NvmlSampler, Retained, ScrapeRound, ScrapeTally, Signals, Span, TargetReadings, VllmScrape,
};
use vllm_coldstart_operator::signal::{Reading, Signal};

fn reading(v: f64) -> Reading {
    Reading { bits: v.to_bits() }
}

fn signal(v: f32) -> Signal {
    Signal { bits: v.to_bits() }
}

fn difference(s: &Span) -> f64 {
    f64::from_bits(s.to.bits) - f64::from_bits(s.from.bits)
}

fn sum_family(body: &str, family: &str) -> Option<f64> {
    let values: Vec<f64> = family_samples(body, family)
        .iter()
        .filter_map(|t| t.parse::<f64>().ok())
        .collect();
    if values.is_empty() {
        None
    } else {
        Some(values.iter().sum())
    }
}

fn sum_family_totaled(body: &str, family: &str) -> Option<f64> {
    counter_reading(
        sum_family(body, &total_name(family)).map(reading),
        sum_family(body, family).map(reading),
    )
    .map(|r| f64::from_bits(r.bits))
}

#[test]
fn demand_gauges_are_read_without_prefix_cache_series() {
    let body = "\
# TYPE vllm:num_requests_waiting gauge\n\
vllm:num_requests_waiting{model=\"a\"} 7\n\
vllm:num_requests_waiting{model=\"b\"} 5\n\
# TYPE vllm:num_requests_running gauge\n\
vllm:num_requests_running 3\n";
    assert_eq!(sum_family(body, "vllm:num_requests_waiting"), Some(12.0));
    assert_eq!(sum_family(body, "vllm:num_requests_running"), Some(3.0));
    assert_eq!(sum_family(body, "vllm:prefix_cache_hits"), None);
}

#[test]
fn absent_demand_series_stay_none() {
    let body = "# TYPE vllm:prefix_cache_hits counter\nvllm:prefix_cache_hits 1\n";
    assert_eq!(sum_family(body, "vllm:num_requests_waiting"), None);
}

#[test]
fn sum_family_sums_label_sets_and_guards_prefix() {
    let body = "\
# HELP vllm:prefix_cache_hits hits\n\
# TYPE vllm:prefix_cache_hits counter\n\
vllm:prefix_cache_hits{model=\"a\"} 10\n\
vllm:prefix_cache_hits{model=\"b\"} 5\n\
vllm:prefix_cache_hits_extended{model=\"a\"} 999\n\
vllm:prefix_cache_queries 40\n";
    assert_eq!(sum_family(body, "vllm:prefix_cache_hits"), Some(15.0));
    assert_eq!(sum_family(body, "vllm:prefix_cache_queries"), Some(40.0));
    assert_eq!(sum_family(body, "vllm:absent"), None);
}

#[test]
fn sum_family_totaled_matches_openmetrics_and_bare_schemas() {
    let v023 = "\
vllm:prefix_cache_queries_total{engine=\"0\"} 135\n\
vllm:prefix_cache_queries_created{engine=\"0\"} 1.78e9\n\
vllm:prefix_cache_hits_total{engine=\"0\"} 62\n\
vllm:prefix_cache_hits_created{engine=\"0\"} 1.78e9\n";
    assert_eq!(
        sum_family_totaled(v023, "vllm:prefix_cache_hits"),
        Some(62.0)
    );
    assert_eq!(
        sum_family_totaled(v023, "vllm:prefix_cache_queries"),
        Some(135.0)
    );
    let bare = "vllm:prefix_cache_hits 10\nvllm:prefix_cache_queries 40\n";
    assert_eq!(
        sum_family_totaled(bare, "vllm:prefix_cache_hits"),
        Some(10.0)
    );
    assert_eq!(
        sum_family_totaled(bare, "vllm:prefix_cache_queries"),
        Some(40.0)
    );
    assert_eq!(sum_family_totaled(v023, "vllm:absent"), None);
}

#[test]
fn sum_family_skips_garbage_values() {
    let body = "vllm:prefix_cache_hits notanumber\nvllm:prefix_cache_hits 3\n";
    assert_eq!(sum_family(body, "vllm:prefix_cache_hits"), Some(3.0));
}

#[test]
fn samples_are_read_to_the_letter() {
    let body = "  f 1 1700000000\r\n\tf{a=\"x y\"}\t2\nf{unclosed 3\nf\nf{}\nfx 4\n#f 5\n\u{2003}f 6";
    assert_eq!(family_samples(body, "f"), vec!["1", "2", "6"]);
    assert!(family_samples("", "f").is_empty());
    assert!(family_samples("f", "").is_empty());
}

#[test]
fn braces_in_label_values_do_not_end_the_labels() {
    let body = "f{p=\"a}b\"} 5\nf{p=\"\\\"}\",q=\"\\\\\"} 6\nf{p=\"open} 7\nf{p=\"x\\\n";
    assert_eq!(family_samples(body, "f"), vec!["5", "6", "7"]);
    assert_eq!(sum_family(body, "f"), Some(18.0));
}

#[test]
fn labels_that_are_not_well_formed_end_at_the_first_brace() {
    for line in [
        "f{a=\"x} 5",
        "f{a=\"x\\} 5",
        "f{a\"} 5 \"} 6",
        "f{\"} 5 \"} 6",
        "f{a=\"x\" b=\"} 5 \"} 6",
        "f{1a=\"} 5 \"} 6",
        "f{a=x} 5 \"} 6",
        "f{,} 5",
    ] {
        assert_eq!(family_samples(line, "f"), vec!["5"], "{line}");
    }
    for line in [
        "f{} 6",
        "f{ } 6",
        "f{a=\"\"} 6",
        "f{ a = \"} 5\" , b1_=\"}\" , } 6",
        "f{_a=\"\\\"} 5\"} 6",
    ] {
        assert_eq!(family_samples(line, "f"), vec!["6"], "{line}");
    }
}

#[test]
fn the_suffixed_counter_goes_first() {
    let (a, b) = (Some(reading(1.0)), Some(reading(2.0)));
    assert_eq!(counter_reading(a, b), a);
    assert_eq!(counter_reading(a, None), a);
    assert_eq!(counter_reading(None, b), b);
    assert_eq!(counter_reading(None, None), None);
}

#[test]
fn lines_that_are_no_samples_change_nothing() {
    let extra = ["", "  ", "# f 9", "  # HELP f", "fx 1", "f_total{a=\"b\"} 2", "g 3", "f x"];
    let plain = "f 1\nf{a=\"b\"} 2\n";
    for x in extra {
        for body in [
            format!("{x}\n{plain}"),
            format!("f 1\n{x}\nf{{a=\"b\"}} 2\n"),
            format!("{plain}{x}\n"),
            format!("{plain}{x}"),
        ] {
            assert_eq!(sum_family(&body, "f"), Some(3.0), "{x}");
        }
        assert_eq!(sum_family(x, "f"), None, "{x}");
    }
    let all = extra.join("\n");
    assert_eq!(sum_family(&all, "f"), None);
    assert_eq!(sum_family(&format!("{all}\nf 4"), "f"), Some(4.0));
}

fn feed(s: &mut VllmScrape, url: &str, h: f64, q: f64) -> Option<f32> {
    let a = s.advance(url, reading(h), reading(q), None);
    a.cache.and_then(|c| {
        let (dh, dq) = (difference(&c.hits), difference(&c.queries));
        if dq > 0.0 {
            Some((dh / dq) as f32)
        } else {
            None
        }
    })
}

fn tokens(s: &mut VllmScrape, g: Option<f64>) -> Option<f64> {
    s.advance("u", reading(0.0), reading(0.0), g.map(reading))
        .tokens
        .map(|t| difference(&t))
}

#[test]
fn delta_rate_first_round_absent_then_measured_then_reset() {
    let mut s = VllmScrape::new(vec!["u".into()]);
    assert_eq!(feed(&mut s, "u", 100.0, 200.0), None);
    assert_eq!(feed(&mut s, "u", 130.0, 240.0), Some(0.75));
    assert_eq!(feed(&mut s, "u", 5.0, 8.0), None);
    assert_eq!(feed(&mut s, "u", 8.0, 12.0), Some(0.75));
}

#[test]
fn delta_rate_zero_queries_is_absent_not_zero() {
    let mut s = VllmScrape::new(vec!["u".into()]);
    assert_eq!(feed(&mut s, "u", 10.0, 20.0), None);
    assert_eq!(feed(&mut s, "u", 10.0, 20.0), None);
}

#[test]
fn token_delta_fail_open_per_series_reset_and_realign() {
    let mut s = VllmScrape::new(vec!["u".into()]);
    assert_eq!(tokens(&mut s, Some(100.0)), None);
    assert_eq!(tokens(&mut s, Some(160.0)), Some(60.0));
    assert_eq!(tokens(&mut s, None), None);
    assert_eq!(tokens(&mut s, Some(5.0)), None);
    assert_eq!(tokens(&mut s, Some(2.0)), None);
    assert_eq!(tokens(&mut s, Some(9.0)), Some(7.0));
}

#[test]
fn growth_agrees_with_subtraction() {
    let values = [
        0.0,
        -0.0,
        1.0,
        -1.0,
        1.5,
        f64::MIN_POSITIVE,
        5e-324,
        f64::MAX,
        f64::MIN,
        f64::INFINITY,
        f64::NEG_INFINITY,
        f64::NAN,
        -f64::NAN,
    ];
    for a in values {
        for b in values {
            assert_eq!(
                reading(a).grew_to(&reading(b)),
                b - a >= 0.0,
                "from {a:?} to {b:?}"
            );
        }
    }
}

#[test]
fn a_round_counts_requests_of_every_target_and_the_cache_of_those_that_expose_it() {
    let mut s = VllmScrape::new(vec!["a".into(), "b".into()]);
    let full = TargetReadings {
        waiting: Some(reading(7.0)),
        running: Some(reading(1.0)),
        hits: Some(reading(10.0)),
        queries: Some(reading(20.0)),
        tokens: Some(reading(5.0)),
    };
    let bare = TargetReadings {
        waiting: Some(reading(5.0)),
        running: None,
        hits: None,
        queries: Some(reading(3.0)),
        tokens: None,
    };
    let mut first = ScrapeTally::new();
    s.record("a", &full, &mut first);
    s.record("b", &bare, &mut first);
    assert_eq!(first.responding, 1);
    assert_eq!(first.waiting, vec![reading(7.0), reading(5.0)]);
    assert_eq!(first.running, vec![reading(1.0)]);
    assert!(first.cache.is_empty() && first.tokens.is_empty());
    let mut second = ScrapeTally::new();
    s.record("a", &full, &mut second);
    assert_eq!(second.cache.len(), 1);
    assert_eq!(difference(&second.cache[0].queries), 0.0);
    assert_eq!(second.tokens.len(), 1);
}

fn device(u: Option<u32>, m: Option<u64>, e: Option<u64>) -> DeviceReading {
    DeviceReading {
        utilization: u,
        memory_used: m,
        energy: e,
    }
}

#[test]
fn gpus_are_added_up_and_energy_is_all_or_nothing() {
    let mut s = NvmlSampler::new();
    let t = s.sample(&[
        device(Some(30), Some(100), Some(1000)),
        device(None, Some(11), Some(500)),
    ]);
    assert_eq!((t.utilization_sum, t.utilization_count), (30, 1));
    assert_eq!(t.memory_used, Some(111));
    assert_eq!(t.energy_delta, None);
    let t = s.sample(&[
        device(Some(1), None, Some(1200)),
        device(Some(2), None, Some(600)),
    ]);
    assert_eq!((t.utilization_sum, t.utilization_count), (3, 2));
    assert_eq!(t.memory_used, None);
    assert_eq!(t.energy_delta, Some(300));
    let t = s.sample(&[device(None, None, Some(9)), device(None, None, None)]);
    assert_eq!(t.energy_delta, None);
    assert_eq!(s.previous_energy, None);
    assert_eq!(s.sample(&[device(None, None, Some(70))]).energy_delta, None);
    assert_eq!(s.sample(&[device(None, None, Some(50))]).energy_delta, None);
    assert_eq!(s.sample(&[device(None, None, Some(65))]).energy_delta, Some(15));
    assert_eq!(s.sample(&[]).energy_delta, None);
    assert_eq!(s.previous_energy, None);
}

#[test]
fn tokens_need_energy_of_the_same_round() {
    let span = Span {
        from: reading(0.0),
        to: reading(1.0),
    };
    assert_eq!(energy_for_tokens(&[span], Some(5)), Some(5));
    assert_eq!(energy_for_tokens(&[span], Some(0)), None);
    assert_eq!(energy_for_tokens(&[span], None), None);
    assert_eq!(energy_for_tokens(&[], Some(5)), None);
}

#[test]
fn a_source_that_is_off_measures_nothing() {
    let none = assemble(None, None);
    assert_eq!(none.active_service_count, None);
    assert_eq!(none.gpu_utilization, None);
    let s = assemble(
        Some(ScrapeRound {
            kv_cache_hit_rate: Some(signal(0.75)),
            requests_waiting: None,
            requests_running: Some(signal(2.0)),
            responding_targets: 0,
        }),
        Some(GpuRound {
            gpu_utilization: Some(signal(40.0)),
            gpu_memory_used_bytes: Some(12),
            tokens_per_joule: None,
        }),
    );
    assert_eq!(s.active_service_count, Some(0));
    assert_eq!(s.kv_cache_hit_rate, Some(signal(0.75)));
    assert_eq!(s.gpu_memory_used_bytes, Some(12));
}

#[test]
fn the_last_measurement_is_republished_with_its_own_time() {
    let measured = Signals {
        kv_cache_hit_rate: Some(signal(0.5)),
        gpu_utilization: Some(signal(10.0)),
        ..assemble(None, None)
    };
    let idle = Signals {
        gpu_utilization: Some(signal(0.0)),
        ..assemble(None, None)
    };
    let mut r = Retained::new();
    r.retain(&measured, "t1");
    r.retain(&idle, "t2");
    let report = node_report(&idle, &r, None, "t2");
    assert_eq!(report.observed_generation, 0);
    assert_eq!(report.last_report_time, "t2");
    assert_eq!(report.kv_cache_hit_rate, Some(signal(0.5)));
    assert_eq!(report.kv_cache_hit_rate_observed_at.as_deref(), Some("t1"));
    assert_eq!(report.tokens_per_joule, None);
    assert_eq!(report.tokens_per_joule_observed_at, None);
    assert_eq!(report.gpu_utilization, Some(signal(0.0)));
    r.retain(&measured, "t3");
    let report = node_report(&measured, &r, Some(4), "t3");
    assert_eq!(report.kv_cache_hit_rate_observed_at.as_deref(), Some("t3"));
    assert_eq!(report.observed_generation, 4);
}

#[test]
fn settings_for_a_node_win_over_settings_for_all() {
    assert_eq!(
        node_setting_name("REPORTER_SCRAPE_TARGETS", "gpu-node-1.zone"),
        "REPORTER_SCRAPE_TARGETS_NODE_GPU_NODE_1_ZONE"
    );
    assert_eq!(node_setting_name("K", "\u{e9}z"), "K_NODE_\u{e9}Z");
    let own = Some("own".to_string());
    let all = Some("all".to_string());
    let s = pick_setting("K", "n-1", &own, &all).unwrap();
    assert_eq!((s.key.as_str(), s.value.as_str()), ("K_NODE_N_1", "own"));
    let s = pick_setting("K", "n-1", &None, &all).unwrap();
    assert_eq!((s.key.as_str(), s.value.as_str()), ("K", "all"));
    assert!(pick_setting("K", "n-1", &None, &None).is_none());
    assert_eq!(required_setting(&own), own);
    assert_eq!(required_setting(&Some(String::new())), None);
    assert_eq!(required_setting(&None), None);
    assert_eq!(gpu_source(&Some("nvidia".to_string())), GpuSource::Nvidia);
    assert_eq!(gpu_source(&Some("amd".to_string())), GpuSource::Unknown);
    assert_eq!(gpu_source(&None), GpuSource::Off);
}

#[test]
fn targets_are_trimmed_and_empty_ones_dropped() {
    assert_eq!(
        scrape_targets(" http://a/metrics ,, http://b/metrics,\t"),
        vec!["http://a/metrics", "http://b/metrics"]
    );
    assert!(scrape_targets("").is_empty());
    assert!(scrape_targets(" , ").is_empty());
}

#[test]
fn reports_are_at_least_a_second_apart() {
    let at = |n: i32| {
        report_interval_secs(&NodeStateSpec {
            report_interval_seconds: n,
        })
    };
    assert_eq!((at(-5), at(0), at(1), at(15)), (1, 1, 1, 15));
}

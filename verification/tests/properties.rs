use vllm_coldstart_operator::fleet_placement::{
    comparison_key, fresh_signal, select_node_efficiency_aware, NodeCandidate,
};
use vllm_coldstart_operator::fleet_types::Warmth;
use vllm_coldstart_operator::signal::Signal;

fn warmth_rank(w: &Warmth) -> u8 {
    match w {
        Warmth::Warm => 2,
        Warmth::Warming => 1,
        Warmth::Cold => 0,
    }
}

struct Random {
    state: u64,
}

impl Random {
    fn next(&mut self, n: u64) -> u64 {
        self.state = self
            .state
            .wrapping_mul(6364136223846793005)
            .wrapping_add(1442695040888963407);
        (self.state >> 33) % n
    }

    fn warmth(&mut self) -> Warmth {
        match self.next(3) {
            0 => Warmth::Cold,
            1 => Warmth::Warming,
            _ => Warmth::Warm,
        }
    }

    fn signal(&mut self) -> Option<Signal> {
        let v = match self.next(6) {
            0 => return None,
            1 => f32::NAN,
            2 => f32::INFINITY,
            3 => f32::NEG_INFINITY,
            4 => self.next(4_000_000) as f32 / 1_000_000.0 - 2.0,
            _ => self.next(1_000_000) as f32 / 1000.0,
        };
        Some(Signal { bits: v.to_bits() })
    }

    fn age(&mut self) -> Option<i64> {
        match self.next(5) {
            0 => None,
            1 => Some(0),
            2 => Some(-1),
            3 => Some(self.next(7200) as i64 - 3600),
            _ => Some(self.next(86_400) as i64),
        }
    }

    fn candidate(&mut self, i: usize) -> NodeCandidate {
        let util = if self.next(4) > 0 {
            let v = self.next(100_000) as f32 / 1000.0;
            Some(Signal { bits: v.to_bits() })
        } else {
            None
        };
        let count = if self.next(4) > 0 {
            Some(self.next(32) as i32)
        } else {
            None
        };
        NodeCandidate {
            name: format!("node-{i}"),
            warmth: self.warmth(),
            gpu_utilization: util,
            active_service_count: count,
            kv_cache_hit_rate: self.signal(),
            kv_cache_hit_rate_age_secs: self.age(),
            tokens_per_joule: self.signal(),
            tokens_per_joule_age_secs: self.age(),
        }
    }

    fn fleet(&mut self) -> Vec<NodeCandidate> {
        let n = 1 + self.next(11) as usize;
        (0..n).map(|i| self.candidate(i)).collect()
    }
}

#[test]
fn winner_is_always_in_max_warmth_class() {
    let mut r = Random { state: 1 };
    for _ in 0..2000 {
        let fleet = r.fleet();
        let max_rank = fleet.iter().map(|c| warmth_rank(&c.warmth)).max().unwrap();
        let chosen = select_node_efficiency_aware(&fleet, None).unwrap();
        assert_eq!(warmth_rank(&chosen.warmth), max_rank);
    }
}

#[test]
fn no_signals_winner_matches_warmth_first_class() {
    let mut r = Random { state: 2 };
    for _ in 0..2000 {
        let mut fleet = r.fleet();
        for c in &mut fleet {
            c.kv_cache_hit_rate = None;
            c.tokens_per_joule = None;
        }
        let max_rank = fleet.iter().map(|c| warmth_rank(&c.warmth)).max().unwrap();
        let chosen = select_node_efficiency_aware(&fleet, None).unwrap();
        assert_eq!(warmth_rank(&chosen.warmth), max_rank);
    }
}

#[test]
fn selection_is_rotation_invariant_on_distinct_fleets() {
    let mut r = Random { state: 3 };
    for _ in 0..2000 {
        let fleet = r.fleet();
        let mut distinct: Vec<NodeCandidate> = Vec::new();
        for c in &fleet {
            if !distinct
                .iter()
                .any(|d| comparison_key(d) == comparison_key(c))
            {
                distinct.push(c.clone());
            }
        }
        let n = distinct.len();
        let mut rotated: Vec<NodeCandidate> = distinct.iter().map(|c| c.clone()).collect();
        rotated.rotate_left(r.next(12) as usize % n);
        let a = select_node_efficiency_aware(&distinct, None).unwrap().name.clone();
        let b = select_node_efficiency_aware(&rotated, None).unwrap().name.clone();
        assert_eq!(a, b);
    }
}

#[test]
fn expired_signal_ranks_exactly_as_never_observed() {
    let mut r = Random { state: 4 };
    for _ in 0..2000 {
        let fleet = r.fleet();
        let horizon = 1 + r.next(7199) as i64;
        let stripped: Vec<NodeCandidate> = fleet
            .iter()
            .map(|c| {
                let stale = |age: Option<i64>| match age {
                    None => true,
                    Some(a) => a < 0 || a > horizon,
                };
                let mut out = c.clone();
                if stale(c.kv_cache_hit_rate_age_secs) {
                    out.kv_cache_hit_rate = None;
                }
                if stale(c.tokens_per_joule_age_secs) {
                    out.tokens_per_joule = None;
                }
                out
            })
            .collect();
        let a = select_node_efficiency_aware(&fleet, Some(horizon)).map(|c| c.name.clone());
        let b = select_node_efficiency_aware(&stripped, Some(horizon)).map(|c| c.name.clone());
        assert_eq!(a, b);
    }
}

#[test]
fn horizon_does_not_touch_nvml_signals() {
    let mut r = Random { state: 5 };
    for _ in 0..2000 {
        let mut fleet = r.fleet();
        let horizon = 1 + r.next(7199) as i64;
        for c in &mut fleet {
            c.kv_cache_hit_rate = None;
            c.tokens_per_joule = None;
        }
        let with = select_node_efficiency_aware(&fleet, Some(horizon)).map(|c| c.name.clone());
        let without = select_node_efficiency_aware(&fleet, None).map(|c| c.name.clone());
        assert_eq!(with, without);
    }
}

#[test]
fn the_horizon_is_inclusive_and_rejects_the_future() {
    let s = Some(Signal { bits: 0 });
    assert_eq!(fresh_signal(s, Some(60), Some(60)), s);
    assert_eq!(fresh_signal(s, Some(61), Some(60)), None);
    assert_eq!(fresh_signal(s, Some(-1), Some(60)), None);
    assert_eq!(fresh_signal(s, None, Some(60)), None);
    assert_eq!(fresh_signal(s, None, None), s);
}

use rand::rngs::SmallRng;
use rand::{Rng, SeedableRng};
use std::collections::HashMap;

use tapirus::event::{to_note, to_str, Message, Pitch};
use tapirus::fp::Fp;
use tapirus::pattern::{Pattern, Table};
use tapirus::time::{Measure, Transport};
use tapirus::ugen::{Graph, NumLit, OperateError, Signal, ADSR};
use tapirus::eval::next_frame;
use tapirus::dump::{dump, UgNode, Value};

/// Host arithmetic: IEEE-754 doubles on bit patterns, with one seeded
/// random stream per node.
struct HostFp {
    rngs: HashMap<usize, SmallRng>,
    sin_calls: u64,
}

impl HostFp {
    fn new() -> HostFp {
        HostFp { rngs: HashMap::new(), sin_calls: 0 }
    }
}

impl Fp for HostFp {
    fn add(&mut self, a: u64, b: u64) -> u64 {
        (f64::from_bits(a) + f64::from_bits(b)).to_bits()
    }
    fn sub(&mut self, a: u64, b: u64) -> u64 {
        (f64::from_bits(a) - f64::from_bits(b)).to_bits()
    }
    fn mul(&mut self, a: u64, b: u64) -> u64 {
        (f64::from_bits(a) * f64::from_bits(b)).to_bits()
    }
    fn div(&mut self, a: u64, b: u64) -> u64 {
        (f64::from_bits(a) / f64::from_bits(b)).to_bits()
    }
    fn rem(&mut self, a: u64, b: u64) -> u64 {
        (f64::from_bits(a) % f64::from_bits(b)).to_bits()
    }
    fn sin(&mut self, a: u64) -> u64 {
        self.sin_calls += 1;
        f64::from_bits(a).sin().to_bits()
    }
    fn cos(&mut self, a: u64) -> u64 {
        f64::from_bits(a).cos().to_bits()
    }
    fn powi(&mut self, a: u64, n: i32) -> u64 {
        f64::from_bits(a).powi(n).to_bits()
    }
    fn floor(&mut self, a: u64) -> u64 {
        f64::from_bits(a).floor().to_bits()
    }
    fn ceil(&mut self, a: u64) -> u64 {
        f64::from_bits(a).ceil().to_bits()
    }
    fn fract(&mut self, a: u64) -> u64 {
        f64::from_bits(a).fract().to_bits()
    }
    fn lt(&mut self, a: u64, b: u64) -> bool {
        f64::from_bits(a) < f64::from_bits(b)
    }
    fn ge(&mut self, a: u64, b: u64) -> bool {
        f64::from_bits(a) >= f64::from_bits(b)
    }
    fn of_int(&mut self, n: u64) -> u64 {
        (n as f64).to_bits()
    }
    fn to_int(&mut self, a: u64) -> u64 {
        f64::from_bits(a) as u64
    }
    fn to_index(&mut self, a: u64) -> usize {
        f64::from_bits(a) as usize
    }
    fn parse_num(&mut self, s: &str) -> Option<(u64, String)> {
        match s.parse::<f64>() {
            Ok(v) => Some((v.to_bits(), v.to_string())),
            Err(_) => None,
        }
    }
    fn format_num(&mut self, a: u64) -> String {
        f64::from_bits(a).to_string()
    }
    fn rand_unit(&mut self, id: usize) -> u64 {
        let rng = self.rngs.entry(id).or_insert_with(|| SmallRng::seed_from_u64(0));
        rng.gen::<f64>().to_bits()
    }
}

fn lit(v: f64) -> NumLit {
    NumLit { bits: v.to_bits(), text: v.to_string() }
}

fn transport(sr: u32, bpm: f64) -> Transport {
    Transport::new(sr, lit(bpm), Measure { beat: 4, note: 4 })
}

fn left(s: Signal) -> f64 {
    f64::from_bits(s.l)
}

#[test]
fn constant_sine_at_zero_frequency() {
    // graph (sine 0 0) at 48 kHz: always silent, phase stays at zero
    let mut fp = HostFp::new();
    let mut g = Graph::new();
    let z1 = g.val(lit(0.0));
    let z2 = g.val(lit(0.0));
    let s = g.sine(z1, z2);
    let mut t = transport(48000, 120.0);
    let out = next_frame(&mut g, s, &mut t, &mut fp);
    assert_eq!(left(out), 0.0);
    assert_eq!(f64::from_bits(out.r), 0.0);
    assert_eq!(f64::from_bits(g.get_ph(s)), 0.0);
    for _ in 0..10 {
        let out = next_frame(&mut g, s, &mut t, &mut fp);
        assert_eq!(left(out), 0.0);
    }
}

#[test]
fn sine_phase_advance_unconventional_divisor() {
    // (sine 0 480) at 48 kHz: the phase divisor is sample_rate / pi
    let mut fp = HostFp::new();
    let mut g = Graph::new();
    let z = g.val(lit(0.0));
    let f = g.val(lit(480.0));
    let s = g.sine(z, f);
    let mut t = transport(48000, 120.0);
    let mut expected_ph = 0.0f64;
    let ph_diff = 48000.0f64 / std::f64::consts::PI;
    for _ in 0..100 {
        next_frame(&mut g, s, &mut t, &mut fp);
        expected_ph += 480.0 / ph_diff;
    }
    assert_eq!(f64::from_bits(g.get_ph(s)), expected_ph);
    // the 101st sample is sin of the accumulated phase
    let out = next_frame(&mut g, s, &mut t, &mut fp);
    assert_eq!(left(out), expected_ph.sin());
}

#[test]
fn saw_waveform_sample_table() {
    // (saw 0 1) at a sample rate of 4: the phase grows by 1/8 per tick
    // and the piecewise rule gives 2x below one half, 2x - 2 above
    let mut fp = HostFp::new();
    let mut g = Graph::new();
    let z = g.val(lit(0.0));
    let f = g.val(lit(1.0));
    let s = g.saw(z, f);
    let mut t = transport(4, 120.0);
    let expected = [0.0, 0.25, 0.5, 0.75, -1.0, -0.75, -0.5, -0.25];
    for e in expected.iter() {
        let out = next_frame(&mut g, s, &mut t, &mut fp);
        assert_eq!(left(out), *e);
    }
}

#[test]
fn tri_waveform_piecewise() {
    let mut fp = HostFp::new();
    let mut g = Graph::new();
    let z = g.val(lit(0.0));
    let f = g.val(lit(1.0));
    let s = g.tri(z, f);
    let mut t = transport(4, 120.0);
    // phase grows by 1/8; x in [0,1/4) gives 4x, [1/4,3/4) gives -4x+2,
    // [3/4,1) gives 4x-4
    let expected = [0.0, 0.5, 1.0, 0.5, 0.0, -0.5, -1.0, -0.5];
    for e in expected.iter() {
        let out = next_frame(&mut g, s, &mut t, &mut fp);
        assert_eq!(left(out), *e);
    }
}

#[test]
fn pulse_duty_cycle() {
    let mut fp = HostFp::new();
    let mut g = Graph::new();
    let z = g.val(lit(0.0));
    let f = g.val(lit(1.0));
    let d = g.val(lit(0.5));
    let p = g.pulse(z, f, d);
    let mut t = transport(4, 120.0);
    let expected = [1.0, 1.0, 1.0, 1.0, -1.0, -1.0, -1.0, -1.0];
    for e in expected.iter() {
        let out = next_frame(&mut g, p, &mut t, &mut fp);
        assert_eq!(left(out), *e);
    }
}

#[test]
fn memoization_shared_node_computed_once_per_tick() {
    // a sine feeding both inputs of a mixer runs its body once per tick
    let mut fp = HostFp::new();
    let mut g = Graph::new();
    let z = g.val(lit(0.0));
    let f = g.val(lit(440.0));
    let s = g.sine(z, f);
    let m = g.mix(vec![s, s]);
    let mut t = transport(48000, 120.0);
    for k in 1..=5u64 {
        next_frame(&mut g, m, &mut t, &mut fp);
        assert_eq!(fp.sin_calls, k);
    }
    // the mixer doubles the shared sine
    let out = next_frame(&mut g, m, &mut t, &mut fp);
    let alone = f64::from_bits(g.nodes[s].last_sig.l);
    assert_eq!(left(out), alone + alone);
}

#[test]
fn transport_monotonic_ticks() {
    let mut fp = HostFp::new();
    let mut t = transport(48000, 120.0);
    assert_eq!(t.tick, 0);
    for n in 1..=1000u64 {
        t.inc(&mut fp);
        assert_eq!(t.tick, n);
    }
    assert_eq!(t.sample_rate, 48000);
    assert_eq!(t.measure, Measure { beat: 4, note: 4 });
}

#[test]
fn transport_musical_position_carries() {
    // at 120 bpm and 8 samples per second, one beat lasts 4 samples
    let mut fp = HostFp::new();
    let mut t = transport(8, 120.0);
    let mut seen_beat_one = false;
    for _ in 0..8 {
        t.inc(&mut fp);
        if t.pos.beat == 1 {
            seen_beat_one = true;
        }
    }
    assert!(seen_beat_one || t.pos.bar > 0);
    assert_eq!(t.tick, 8);
}

#[test]
fn transport_sec_to_samples_floor() {
    let mut fp = HostFp::new();
    let t = transport(48000, 120.0);
    assert_eq!(t.sec_to_samples(0.5f64.to_bits(), &mut fp), 24000);
    assert_eq!(t.sec_to_samples(0.25f64.to_bits(), &mut fp), 12000);
    assert_eq!(t.sec_to_samples(0.0f64.to_bits(), &mut fp), 0);
}

#[test]
fn delay_impulse_response_one_sample() {
    // time 0.25 at 4 Hz is one sample of delay; an impulse decays by
    // the feedback factor each sample
    let mut fp = HostFp::new();
    let mut g = Graph::new();
    let time = g.val(lit(0.25));
    let fb = g.val(lit(0.5));
    let mix = g.val(lit(1.0));
    let one = g.val(lit(1.0));
    let zero = g.val(lit(0.0));
    let d = g.delay(time, fb, mix, one, 4);
    let mut t = transport(4, 120.0);
    let out0 = next_frame(&mut g, d, &mut t, &mut fp);
    assert_eq!(left(out0), 1.0);
    // the impulse ends: the source becomes silent
    g.set(d, "src", zero).unwrap();
    let expected = [0.5, 0.25, 0.125, 0.0625, 0.03125, 0.015625, 0.0078125, 0.0, 0.0];
    for e in expected.iter() {
        let out = next_frame(&mut g, d, &mut t, &mut fp);
        assert_eq!(left(out), *e);
    }
}

#[test]
fn delay_impulse_response_four_samples() {
    // a one-second delay at 4 Hz echoes four samples later; the second
    // echo would sit exactly at the ring's length (two seconds), which
    // the tap loop excludes, so it never sounds
    let mut fp = HostFp::new();
    let mut g = Graph::new();
    let time = g.val(lit(1.0));
    let fb = g.val(lit(0.5));
    let mix = g.val(lit(1.0));
    let one = g.val(lit(1.0));
    let zero = g.val(lit(0.0));
    let d = g.delay(time, fb, mix, one, 4);
    let mut t = transport(4, 120.0);
    let out0 = next_frame(&mut g, d, &mut t, &mut fp);
    assert_eq!(left(out0), 1.0);
    g.set(d, "src", zero).unwrap();
    let expected = [0.0, 0.0, 0.0, 0.5, 0.0, 0.0, 0.0, 0.0, 0.0];
    for e in expected.iter() {
        let out = next_frame(&mut g, d, &mut t, &mut fp);
        assert_eq!(left(out), *e);
    }
}

#[test]
fn biquad_dc_gain_converges_to_unity() {
    let mut fp = HostFp::new();
    let mut g = Graph::new();
    let freq = g.val(lit(1000.0));
    let q = g.val(lit(0.707));
    let one = g.val(lit(1.0));
    let f = g.lpf(freq, q, one);
    let mut t = transport(48000, 120.0);
    let mut out = Signal { l: 0, r: 0 };
    for _ in 0..10000 {
        out = next_frame(&mut g, f, &mut t, &mut fp);
    }
    assert!((left(out) - 1.0).abs() < 1e-6);
    assert!((f64::from_bits(out.r) - 1.0).abs() < 1e-6);
}

#[test]
fn shared_node_dump() {
    // let o = (sine 0 440); the graph (+ o o) dumps o once as a
    // definition and references it twice
    let mut fp = HostFp::new();
    let mut g = Graph::new();
    let z = g.val(lit(0.0));
    let f = g.val(lit(440.0));
    let o = g.sine(z, f);
    let m = g.mix(vec![o, o]);
    let t = transport(48000, 120.0);
    let text = dump(&g, m, &t, &mut fp);
    let expected = ";; environment\n(bpm 120)\n(measure 4 4)\n\n;; shared units\n(def shared-0 (sine 0 440))\n\n;; unit graph\n(+ shared-0 shared-0)\n";
    assert_eq!(text, expected);
}

#[test]
fn dump_without_sharing_inlines_everything() {
    let mut fp = HostFp::new();
    let mut g = Graph::new();
    let z = g.val(lit(0.0));
    let f = g.val(lit(440.0));
    let o = g.sine(z, f);
    let q = g.val(lit(0.707));
    let c = g.val(lit(1000.0));
    let l = g.lpf(c, q, o);
    let t = transport(48000, 120.0);
    let text = dump(&g, l, &t, &mut fp);
    let expected = ";; environment\n(bpm 120)\n(measure 4 4)\n\n;; shared units\n\n;; unit graph\n(lpf 1000 0.707 (sine 0 440))\n";
    assert_eq!(text, expected);
}

#[test]
fn dump_table_and_pattern_nodes() {
    let mut fp = HostFp::new();
    let mut g = Graph::new();
    let tab = g.tab(vec![lit(0.0), lit(0.5), lit(1.0)]);
    let ph = g.val(lit(0.0));
    let w = g.wavetable(tab, ph);
    let t = transport(48000, 120.0);
    let text = dump(&g, w, &t, &mut fp);
    let expected = ";; environment\n(bpm 120)\n(measure 4 4)\n\n;; shared units\n\n;; unit graph\n(wavetable (table 0 0.5 1) 0)\n";
    assert_eq!(text, expected);

    let msgs = Pattern::parse_str("c4:4 d#5:8 loop", &mut fp).unwrap();
    let p = g.pat(msgs);
    let text2 = g.dump_node_text(p, &vec![], &mut fp);
    assert_eq!(text2, "(pat c4:4 d#5:8 loop)");
}

#[test]
fn pattern_token_parsing() {
    let mut fp = HostFp::new();
    assert!(matches!(Pattern::parse_str_1("loop", &mut fp), Ok(Message::Loop)));
    match Pattern::parse_str_1("c4:4", &mut fp) {
        Ok(Message::Note(Pitch::Pitch(n, o), pos)) => {
            assert_eq!(n, 0);
            assert_eq!(o, 4);
            assert_eq!(pos.bar, 0);
            assert_eq!(pos.beat, 1);
            assert_eq!(f64::from_bits(pos.pos), 0.0);
        }
        other => panic!("unexpected: {:?}", other),
    }
    match Pattern::parse_str_1("d#5:8", &mut fp) {
        Ok(Message::Note(Pitch::Pitch(n, o), pos)) => {
            assert_eq!(n, 3);
            assert_eq!(o, 5);
            assert_eq!(pos.beat, 0);
            assert_eq!(f64::from_bits(pos.pos), 0.5);
        }
        other => panic!("unexpected: {:?}", other),
    }
    assert!(matches!(
        Pattern::parse_str_1("kick:4", &mut fp),
        Ok(Message::Note(Pitch::Kick, _))
    ));
    assert!(matches!(
        Pattern::parse_str_1("rest:1", &mut fp),
        Ok(Message::Note(Pitch::Rest, _))
    ));
    assert!(Pattern::parse_str_1("c4", &mut fp).is_err());
    assert!(Pattern::parse_str_1("c4:x", &mut fp).is_err());
    assert!(Pattern::parse_str_1("h4:4", &mut fp).is_err());
    assert!(Pattern::parse_str_1("c4:4:4", &mut fp).is_err());
    assert!(Pattern::parse_str_1("", &mut fp).is_err());
}

#[test]
fn pattern_whole_parse_fails_on_one_bad_token() {
    let mut fp = HostFp::new();
    let ok = Pattern::parse_str("c4:4 e4:4 g4:4 loop", &mut fp).unwrap();
    assert_eq!(ok.len(), 4);
    assert!(Pattern::parse_str("c4:4 nope loop", &mut fp).is_err());
    // double spaces make an empty token, which is malformed
    assert!(Pattern::parse_str("c4:4  e4:4", &mut fp).is_err());
}

#[test]
fn table_parse() {
    let mut fp = HostFp::new();
    let v = Table::parse_str("0.1 0.2 -3", &mut fp).unwrap();
    assert_eq!(v.len(), 3);
    assert_eq!(f64::from_bits(v[0].bits), 0.1);
    assert_eq!(f64::from_bits(v[2].bits), -3.0);
    assert_eq!(v[2].text, "-3");
    assert!(Table::parse_str("0.1 x 3", &mut fp).is_none());
    let trimmed = Table::parse_str("  1 2  ", &mut fp).unwrap();
    assert_eq!(trimmed.len(), 2);
    let table = Table::new(trimmed);
    assert_eq!(table.0.len(), 2);
    let pat = Pattern::new(Pattern::parse_str("c4:4 loop", &mut fp).unwrap());
    assert_eq!(pat.0.len(), 2);
}

#[test]
fn operate_get_set_and_errors() {
    let mut g = Graph::new();
    let z = g.val(lit(0.0));
    let f = g.val(lit(440.0));
    let s = g.sine(z, f);
    assert_eq!(g.get(s, "freq").unwrap(), f);
    assert_eq!(g.get(s, "init_ph").unwrap(), z);
    assert!(matches!(
        g.get(s, "nope"),
        Err(OperateError::ParamNotFound(msg)) if msg == "sine/nope"
    ));
    assert!(matches!(g.get(z, "freq"), Err(OperateError::NotUgen)));
    assert_eq!(g.get_str(s, "freq").unwrap(), "440");
    // rewire freq to the zero constant
    g.set(s, "freq", z).unwrap();
    assert_eq!(g.get(s, "freq").unwrap(), z);
    // a random source hides its parameter from reads but accepts writes
    let r = g.rand(f);
    assert!(matches!(g.get(r, "freq"), Err(OperateError::ParamNotFound(_))));
    assert!(g.set(r, "freq", z).unwrap());
}

#[test]
fn operate_set_str_parses_and_reports() {
    let mut fp = HostFp::new();
    let mut g = Graph::new();
    let z = g.val(lit(0.0));
    let f = g.val(lit(440.0));
    let s = g.sine(z, f);
    assert!(g.set_str(s, "freq", "441.5\n", &mut fp).unwrap());
    assert_eq!(g.get_str(s, "freq").unwrap(), "441.5");
    // canonical rendering: trailing zeros vanish
    assert!(g.set_str(s, "freq", " 442.00 ", &mut fp).unwrap());
    assert_eq!(g.get_str(s, "freq").unwrap(), "442");
    assert!(matches!(
        g.set_str(s, "freq", "nope", &mut fp),
        Err(OperateError::CannotParseNumber(msg, data)) if msg == "sine/freq" && data == "nope"
    ));
    assert!(matches!(
        g.set_str(s, "zzz", "1", &mut fp),
        Err(OperateError::ParamNotFound(_))
    ));
}

#[test]
fn operate_clear_resets_to_zero() {
    let mut g = Graph::new();
    let z = g.val(lit(0.0));
    let f = g.val(lit(440.0));
    let s = g.sine(z, f);
    g.clear(s, "freq");
    assert_eq!(g.get_str(s, "freq").unwrap(), "0");
}

#[test]
fn wavetable_linear_interpolation_weights_earlier_sample() {
    // table [0, 1] read at phase 0.25: p = 0.5, floor 0, ceil 1,
    // r = 0.5, and the interpolation is v1*r + v2*(1-r)
    let mut fp = HostFp::new();
    let mut g = Graph::new();
    let tab = g.tab(vec![lit(0.0), lit(1.0)]);
    let ph = g.val(lit(0.25));
    let w = g.wavetable(tab, ph);
    let mut t = transport(4, 120.0);
    let out = next_frame(&mut g, w, &mut t, &mut fp);
    assert_eq!(left(out), 0.0 * 0.5 + 1.0 * (1.0 - 0.5));
    // an asymmetric phase shows which sample gets the fraction
    let mut g2 = Graph::new();
    let tab2 = g2.tab(vec![lit(0.0), lit(1.0)]);
    let ph2 = g2.val(lit(0.375));
    let w2 = g2.wavetable(tab2, ph2);
    let mut t2 = transport(4, 120.0);
    let out2 = next_frame(&mut g2, w2, &mut t2, &mut fp);
    // p = 0.75: v1 = 0 weighted by 0.75, v2 = 1 weighted by 0.25
    assert_eq!(left(out2), 0.0 * 0.75 + 1.0 * 0.25);
}

#[test]
fn phase_shaper_maps_into_half_to_three_halves() {
    let mut fp = HostFp::new();
    let mut g = Graph::new();
    let v = g.val(lit(-3.0));
    let p = g.phase(v);
    let mut t = transport(4, 120.0);
    let out = next_frame(&mut g, p, &mut t, &mut fp);
    // clipped to -1, scaled to -0.5, offset to 0.5
    assert_eq!(left(out), 0.5);
    let mut g2 = Graph::new();
    let v2 = g2.val(lit(0.5));
    let p2 = g2.phase(v2);
    let mut t2 = transport(4, 120.0);
    let out2 = next_frame(&mut g2, p2, &mut t2, &mut fp);
    assert_eq!(left(out2), 1.25);
}

#[test]
fn rand_source_is_deterministic_per_stream() {
    fn run_rand() -> Vec<f64> {
        let mut fp = HostFp::new();
        let mut g = Graph::new();
        let f = g.val(lit(0.0));
        let r = g.rand(f);
        let mut t = transport(4, 120.0);
        let mut outs = Vec::new();
        for _ in 0..5 {
            outs.push(left(next_frame(&mut g, r, &mut t, &mut fp)));
        }
        outs
    }
    let outs1 = run_rand();
    let outs2 = run_rand();
    assert_eq!(outs1, outs2);
    // every sample is in the unit interval once drawing starts
    for v in outs1.iter() {
        assert!(*v >= 0.0 && *v < 1.0);
    }
}

#[test]
fn adsr_envelope_rises_and_releases() {
    let mut fp = HostFp::new();
    let mut g = Graph::new();
    // one second attack at 4 samples per second: level grows by 1/4
    let a = g.val(lit(1.0));
    let d = g.val(lit(1.0));
    let s = g.val(lit(0.5));
    let r = g.val(lit(1.0));
    let e = g.adsr(a, d, s, r);
    g.set_state(e, ADSR::Attack, 0);
    let mut t = transport(4, 120.0);
    let attack: Vec<f64> = (0..4).map(|_| left(next_frame(&mut g, e, &mut t, &mut fp))).collect();
    assert_eq!(attack, vec![0.0, 0.25, 0.5, 0.75]);
    // attack completes, decay heads toward the sustain level
    let top = left(next_frame(&mut g, e, &mut t, &mut fp));
    assert_eq!(top, 1.0);
    assert!(matches!(g.get_state(e), ADSR::Decay));
    for _ in 0..5 {
        next_frame(&mut g, e, &mut t, &mut fp);
    }
    assert!(matches!(g.get_state(e), ADSR::Sustin));
    let sus = left(next_frame(&mut g, e, &mut t, &mut fp));
    assert_eq!(sus, 0.5);
    // a released envelope fades to silence and switches off
    g.set_state(e, ADSR::Release, 0);
    for _ in 0..6 {
        next_frame(&mut g, e, &mut t, &mut fp);
    }
    assert!(matches!(g.get_state(e), ADSR::Off));
    let silent = left(next_frame(&mut g, e, &mut t, &mut fp));
    assert_eq!(silent, 0.0);
}

#[test]
fn oneshot_gates_by_envelope_state() {
    let mut fp = HostFp::new();
    let mut g = Graph::new();
    let z = g.val(lit(0.0));
    let f = g.val(lit(1.0));
    let o = g.saw(z, f);
    let a = g.val(lit(10.0));
    let d = g.val(lit(10.0));
    let s = g.val(lit(1.0));
    let r = g.val(lit(10.0));
    let e = g.adsr(a, d, s, r);
    let shot = g.oneshot(o, e);
    let mut t = transport(4, 120.0);
    // idle envelope: silence, and the oscillator phase is held at zero
    let quiet = left(next_frame(&mut g, shot, &mut t, &mut fp));
    assert_eq!(quiet, 0.0);
    assert_eq!(f64::from_bits(g.get_ph(o)), 0.0);
    // an attacking envelope lets the oscillator through
    g.set_state(e, ADSR::Attack, 0);
    let v1 = left(next_frame(&mut g, shot, &mut t, &mut fp));
    let v2 = left(next_frame(&mut g, shot, &mut t, &mut fp));
    assert_eq!(v1, 0.0);
    assert!(v2 > 0.0);
}

#[test]
fn wavetable_from_oscillator_samples_two_cycles() {
    let mut fp = HostFp::new();
    let mut g = Graph::new();
    let z = g.val(lit(0.0));
    let f = g.val(lit(1.0));
    let o = g.saw(z, f);
    let ph = g.val(lit(0.0));
    let before = g.len();
    let w = g.wavetable_from_osc(o, ph, &transport(48000, 120.0), &mut fp);
    assert_eq!(g.len(), before + 2);
    assert_eq!(w, before + 1);
    // reading at phase zero yields the first captured sample
    let mut t = transport(48000, 120.0);
    let out = next_frame(&mut g, w, &mut t, &mut fp);
    assert_eq!(left(out), 0.0);
}

#[test]
fn walker_collects_shared_nodes_only() {
    let mut g = Graph::new();
    let z = g.val(lit(0.0));
    let f = g.val(lit(440.0));
    let o = g.sine(z, f);
    let m = g.mix(vec![o, o, o]);
    let (order, shared) = g.walk_collect(m);
    assert_eq!(order[0], m);
    assert!(order.contains(&o) && order.contains(&z) && order.contains(&f));
    assert_eq!(shared, vec![o]);
    // a chain without sharing has no shared nodes
    let (order2, shared2) = g.walk_collect(o);
    assert_eq!(order2, vec![o, z, f]);
    assert!(shared2.is_empty());
}

#[test]
fn note_name_round_trip() {
    for (tok, n, o) in [
        ("c4", 0u32, 4u32),
        ("c#4", 1, 4),
        ("d0", 2, 0),
        ("g#7", 8, 7),
        ("a4", 9, 4),
        ("b12", 11, 12),
    ] {
        match to_note(tok) {
            Some(Pitch::Pitch(nn, oo)) => {
                assert_eq!((nn, oo), (n, o));
                assert_eq!(to_str(&Pitch::Pitch(nn, oo)), tok);
            }
            other => panic!("bad parse of {}: {:?}", tok, other),
        }
    }
    assert_eq!(to_note("kick"), Some(Pitch::Kick));
    assert_eq!(to_note("rest"), Some(Pitch::Rest));
    assert_eq!(to_note("x4"), None);
    assert_eq!(to_note("c"), None);
    assert_eq!(to_str(&Pitch::Kick), "kick");
}

#[test]
fn delay_feedback_sums_taps() {
    // constant input through a delay accumulates its echo taps
    let mut fp = HostFp::new();
    let mut g = Graph::new();
    let time = g.val(lit(0.25));
    let fb = g.val(lit(0.5));
    let mix = g.val(lit(1.0));
    let one = g.val(lit(1.0));
    let d = g.delay(time, fb, mix, one, 4);
    let mut t = transport(4, 120.0);
    let o0 = left(next_frame(&mut g, d, &mut t, &mut fp));
    let o1 = left(next_frame(&mut g, d, &mut t, &mut fp));
    let o2 = left(next_frame(&mut g, d, &mut t, &mut fp));
    assert_eq!(o0, 1.0);
    assert_eq!(o1, 1.0 + 0.5);
    assert_eq!(o2, 1.0 + 0.5 + 0.25);
}

#[test]
fn pattern_dump_round_trips_tokens() {
    let mut fp = HostFp::new();
    let src = "c4:4 e4:8 g4:16 kick:4 rest:2 loop";
    let msgs = Pattern::parse_str(src, &mut fp).unwrap();
    let mut g = Graph::new();
    let p = g.pat(msgs);
    let text = g.dump_node_text(p, &vec![], &mut fp);
    assert_eq!(text, format!("(pat {})", src));
}

#[test]
fn osc_freq_capability() {
    let mut g = Graph::new();
    let z = g.val(lit(0.0));
    let f = g.val(lit(440.0));
    let s = g.sine(z, f);
    assert_eq!(g.get_freq(s), f);
    let f2 = g.val(lit(880.0));
    g.set_freq(s, f2);
    assert_eq!(g.get_freq(s), f2);
    // a wavetable has no frequency of its own and reads as a fresh zero
    let tab = g.tab(vec![lit(0.0), lit(1.0)]);
    let ph = g.val(lit(0.0));
    let w = g.wavetable(tab, ph);
    let zf = g.get_freq(w);
    assert_eq!(f64::from_bits(g.to_val(zf).unwrap().bits), 0.0);
}

#[test]
fn set_ph_reaches_through_wrappers() {
    let mut g = Graph::new();
    let z = g.val(lit(0.0));
    let f = g.val(lit(1.0));
    let s = g.saw(z, f);
    let a = g.val(lit(1.0));
    let d = g.val(lit(1.0));
    let sus = g.val(lit(0.5));
    let r = g.val(lit(1.0));
    let e = g.adsr(a, d, sus, r);
    let shot = g.oneshot(s, e);
    g.set_ph(shot, 0.25f64.to_bits());
    assert_eq!(f64::from_bits(g.get_ph(s)), 0.25);
    assert_eq!(f64::from_bits(g.get_ph(shot)), 0.25);
}

#[test]
fn dump_node_forms_and_unit_rendering() {
    let mut fp = HostFp::new();
    let mut g = Graph::new();
    let z = g.val(lit(0.0));
    let f = g.val(lit(440.0));
    let s = g.sine(z, f);
    let shared: Vec<usize> = vec![];
    match g.dump_node(s, &shared, &mut fp) {
        UgNode::Ug(name, slots) => {
            assert_eq!(name, "sine");
            assert_eq!(slots.len(), 2);
            assert_eq!(slots[0].name, "init_ph");
            assert_eq!(slots[1].name, "freq");
        }
        _ => panic!("a sine dumps as an operator with slots"),
    }
    let node = g.dump_node(s, &shared, &mut fp);
    assert_eq!(g.dump_unit(&node, &shared, &mut fp), "(sine 0 440)");
    // a shared edge prints as its token
    let m = g.mix(vec![s, s]);
    let shared2 = vec![s];
    let node2 = g.dump_node(m, &shared2, &mut fp);
    assert_eq!(g.dump_unit(&node2, &shared2, &mut fp), "(+ shared-0 shared-0)");
    assert_eq!(
        g.dump_value(&Value::Shared(3, s), &shared2, &mut fp),
        "shared-3"
    );
}

#[test]
fn full_patch_renders_finite_audio() {
    // a sine through a filter and a delay, mixed with the dry signal,
    // stays finite and in range over a thousand frames
    let mut fp = HostFp::new();
    let mut g = Graph::new();
    let z = g.val(lit(0.0));
    let f = g.val(lit(220.0));
    let osc = g.sine(z, f);
    let cutoff = g.val(lit(2000.0));
    let q = g.val(lit(0.707));
    let filtered = g.lpf(cutoff, q, osc);
    let dtime = g.val(lit(0.01));
    let fb = g.val(lit(0.3));
    let wet = g.val(lit(0.5));
    let echoed = g.delay(dtime, fb, wet, filtered, 48000);
    let root = g.mix(vec![osc, echoed]);
    let mut t = transport(48000, 120.0);
    for _ in 0..1000 {
        let out = next_frame(&mut g, root, &mut t, &mut fp);
        let l = left(out);
        assert!(l.is_finite());
        assert!(l.abs() < 8.0);
    }
    assert_eq!(t.tick, 1000);
}

#[test]
fn dump_orders_shared_definitions_oldest_first() {
    let mut fp = HostFp::new();
    let mut g = Graph::new();
    let z1 = g.val(lit(0.0));
    let f1 = g.val(lit(220.0));
    let z2 = g.val(lit(0.0));
    let f2 = g.val(lit(330.0));
    let o1 = g.sine(z1, f1);
    let o2 = g.saw(z2, f2);
    let root = g.mix(vec![o1, o2, o1, o2]);
    let t = transport(48000, 120.0);
    let text = dump(&g, root, &t, &mut fp);
    let expected = ";; environment\n(bpm 120)\n(measure 4 4)\n\n;; shared units\n\
(def shared-0 (sine 0 220))\n(def shared-1 (saw 0 330))\n\n;; unit graph\n\
(+ shared-0 shared-1 shared-0 shared-1)\n";
    assert_eq!(text, expected);
}

#[test]
fn oneshot_resets_on_pre_tick_phase() {
    // a fast saw pushes its phase past 1.0 on the first active tick;
    // gating reads the phase as it stood before the tick, so the
    // reset fires on the second active tick and forces the envelope off
    let mut fp = HostFp::new();
    let mut g = Graph::new();
    let z = g.val(lit(0.0));
    let f = g.val(lit(16.0));
    let o = g.saw(z, f);
    let a = g.val(lit(100.0));
    let d = g.val(lit(100.0));
    let sus = g.val(lit(1.0));
    let r = g.val(lit(100.0));
    let e = g.adsr(a, d, sus, r);
    let shot = g.oneshot(o, e);
    g.set_state(e, ADSR::Attack, 0);
    let mut t = transport(4, 120.0);
    // first tick: the pre-tick phase is 0, no reset; the phase then
    // advances by 16/(4*2) = 2 during evaluation
    next_frame(&mut g, shot, &mut t, &mut fp);
    assert!(matches!(g.get_state(e), ADSR::Attack));
    assert_eq!(f64::from_bits(g.get_ph(o)), 2.0);
    // second tick: the pre-tick phase 2.0 crosses 1.0, so the phase is
    // zeroed and the envelope forced off
    next_frame(&mut g, shot, &mut t, &mut fp);
    assert!(matches!(g.get_state(e), ADSR::Off));
    assert_eq!(f64::from_bits(g.get_ph(o)), 0.0);
    // gated off now: silence
    let out = next_frame(&mut g, shot, &mut t, &mut fp);
    assert_eq!(left(out), 0.0);
}

#[test]
fn dump_defines_nested_shared_nodes_first() {
    // a shared sine inside a shared filter: the sine's definition must
    // come first, so the filter's definition can reference it
    let mut fp = HostFp::new();
    let mut g = Graph::new();
    let z = g.val(lit(0.0));
    let fq = g.val(lit(440.0));
    let o = g.sine(z, fq);
    let c = g.val(lit(1000.0));
    let q = g.val(lit(0.707));
    let f = g.lpf(c, q, o);
    let root = g.mix(vec![f, f, o]);
    let t = transport(48000, 120.0);
    let text = dump(&g, root, &t, &mut fp);
    let expected = ";; environment\n(bpm 120)\n(measure 4 4)\n\n;; shared units\n\
(def shared-0 (sine 0 440))\n(def shared-1 (lpf 1000 0.707 shared-0))\n\n;; unit graph\n\
(+ shared-1 shared-1 shared-0)\n";
    assert_eq!(text, expected);
}

#[test]
fn dump_defines_shared_leaves_before_operators() {
    // a constant referenced by two oscillators is itself shared; its
    // definition comes before any operator definition that uses it
    let mut fp = HostFp::new();
    let mut g = Graph::new();
    let z = g.val(lit(0.0));
    let f1 = g.val(lit(220.0));
    let f2 = g.val(lit(330.0));
    let o1 = g.sine(z, f1);
    let o2 = g.saw(z, f2);
    let root = g.mix(vec![o1, o1, o2]);
    let t = transport(48000, 120.0);
    let text = dump(&g, root, &t, &mut fp);
    let expected = ";; environment\n(bpm 120)\n(measure 4 4)\n\n;; shared units\n\
(def shared-0 0)\n(def shared-1 (sine shared-0 220))\n\n;; unit graph\n\
(+ shared-1 shared-1 (saw shared-0 330))\n";
    assert_eq!(text, expected);
}

#[test]
fn set_freq_accepts_an_older_oscillator() {
    // frequency parameters are modulable: an older oscillator node can
    // drive a newer one's frequency
    let mut fp = HostFp::new();
    let mut g = Graph::new();
    let z1 = g.val(lit(0.0));
    let f1 = g.val(lit(2.0));
    let lfo = g.sine(z1, f1);
    let z2 = g.val(lit(0.0));
    let f2 = g.val(lit(220.0));
    let voice = g.saw(z2, f2);
    g.set_freq(voice, lfo);
    assert_eq!(g.get_freq(voice), lfo);
    let mut t = transport(48000, 120.0);
    for _ in 0..16 {
        let out = next_frame(&mut g, voice, &mut t, &mut fp);
        assert!(left(out).is_finite());
    }
}

#[test]
fn nested_oneshots_sharing_an_envelope_interfere() {
    // a one-shot inside another one-shot's oscillator subtree, both
    // holding the same envelope: when the inner one's phase crossing
    // forces the envelope off mid-tick, the outer gate reads it off in
    // the same tick, although it was active when the tick began
    let mut fp = HostFp::new();
    let mut g = Graph::new();
    let z = g.val(lit(0.0));
    let f = g.val(lit(16.0));
    let osc = g.saw(z, f);
    let a = g.val(lit(100.0));
    let d = g.val(lit(100.0));
    let sus = g.val(lit(1.0));
    let r = g.val(lit(100.0));
    let e = g.adsr(a, d, sus, r);
    let inner = g.oneshot(osc, e);
    let outer = g.oneshot(inner, e);
    g.set_state(e, ADSR::Attack, 0);
    let mut t = transport(4, 120.0);
    // first tick: both gates read the attacking envelope
    next_frame(&mut g, outer, &mut t, &mut fp);
    assert!(matches!(g.get_state(e), ADSR::Attack));
    // second tick: the inner one-shot's pre-tick phase crossed 1.0, so
    // it forces the shared envelope off while the outer's children run
    next_frame(&mut g, outer, &mut t, &mut fp);
    assert!(matches!(g.get_state(e), ADSR::Off));
    // from then on the outer is gated off and silent
    let out = next_frame(&mut g, outer, &mut t, &mut fp);
    assert_eq!(left(out), 0.0);
}

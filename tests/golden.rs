use rbonsai::branch::GrowthConfig;
use rbonsai::growth::grow_tree;

fn stroke_text(x: i32, y: i32, glyph: &[char]) -> String {
    format!("({},{},{})", x, y, glyph.iter().collect::<String>())
}

#[test]
fn seed_42_matches_recorded_trace() {
    let cfg = GrowthConfig {
        multiplier: 5,
        life_start: 32,
        leaves: vec!['&'],
        live: false,
        load: false,
        target_branch_count: 0,
        verbosity: 0,
    };
    let g = grow_tree(&cfg, 42, 40, 50, 39);
    assert_eq!(g.counters.branches, 850);
    assert_eq!(g.counters.shoots, 8);
    assert_eq!(g.strokes.len(), 850);
    let firsts: Vec<String> = g.strokes.iter().take(12).map(|s| stroke_text(s.x, s.y, &s.glyph.text())).collect();
    assert_eq!(
        firsts.join(" "),
        "(49,39,/~) (49,39,/~) (50,39,/~) (52,39,/~) (51,38,\\|) (52,38,/~) \
         (51,37,\\|) (52,37,/~) (51,36,\\|) (50,36,/~) (51,35,|/) (53,35,/~)"
    );
    let last = g.strokes.last().unwrap();
    assert_eq!((last.x, last.y, last.glyph.text().len(), last.paint.pair), (57, 24, 32, 2));
}

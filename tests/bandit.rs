use garuda::action::Action;
use garuda::bandit::{BanditState, UNIT_SQ};

fn trace(s: &BanditState, arm: Action) -> i128 {
    let a = &s.arms[arm.as_arm_index()].a;
    (0..s.dim).map(|i| a[i][i]).sum()
}

fn symmetric(s: &BanditState) -> bool {
    s.arms.iter().all(|arm| (0..s.dim).all(|i| (0..s.dim).all(|j| arm.a[i][j] == arm.a[j][i])))
}

#[test]
fn initial_statistics_are_identity_and_zero() {
    let s = BanditState::new(3);
    assert_eq!(s.arms.len(), 3);
    for arm in &s.arms {
        assert_eq!(arm.a, vec![vec![UNIT_SQ, 0, 0], vec![0, UNIT_SQ, 0], vec![0, 0, UNIT_SQ]]);
        assert_eq!(arm.b, vec![0, 0, 0]);
    }
}

#[test]
fn rank_one_update_exact_and_symmetric() {
    let mut s = BanditState::new(2);
    s.update(Action::Warn, &vec![1_000_000, -500_000], 1_000_000);
    let w = &s.arms[1];
    assert_eq!(w.a, vec![vec![2 * UNIT_SQ, -500_000_000_000], vec![-500_000_000_000, UNIT_SQ + 250_000_000_000]]);
    assert_eq!(w.b, vec![UNIT_SQ, -500_000_000_000]);
    assert_eq!(s.arms[0].a, vec![vec![UNIT_SQ, 0], vec![0, UNIT_SQ]]);
    assert!(symmetric(&s));
    s.update(Action::Block, &vec![3, 7], -1_000_000);
    assert!(symmetric(&s));
    assert_eq!(s.arms[2].b, vec![-3_000_000, -7_000_000]);
}

#[test]
fn positive_reward_raises_chosen_trace() {
    let mut s = BanditState::new(4);
    let before = trace(&s, Action::Block);
    s.update(Action::Block, &vec![100_000, 0, 250_000, 1_000_000], 1_000_000);
    assert!(trace(&s, Action::Block) > before);
    assert_eq!(trace(&s, Action::Allow), 4 * UNIT_SQ);
}

#[test]
fn reward_bounds_are_accepted() {
    let mut s = BanditState::new(1);
    for r in [-1_000_000, 0, 1_000_000] {
        s.update(Action::Allow, &vec![1_000_000], r);
    }
    assert_eq!(s.arms[0].b, vec![0]);
    assert_eq!(s.arms[0].a, vec![vec![4 * UNIT_SQ]]);
}

#[test]
fn encode_decode_round_trip() {
    let mut s = BanditState::new(3);
    s.update(Action::Warn, &vec![1, 2, 3], 500_000);
    s.update(Action::Allow, &vec![-4, 0, 9], -1_000_000);
    let v = s.encode();
    assert_eq!(v.len(), 2 + 3 * (9 + 3));
    assert_eq!(&v[..2], &[3, 3]);
    let t = BanditState::decode(&v, 3).unwrap();
    for k in 0..3 {
        assert_eq!(t.arms[k].a, s.arms[k].a);
        assert_eq!(t.arms[k].b, s.arms[k].b);
    }
    assert_eq!(t.encode(), v);
}

#[test]
fn decode_rejects_mismatch() {
    let s = BanditState::new(2);
    let v = s.encode();
    assert!(BanditState::decode(&v, 3).is_none());
    assert!(BanditState::decode(&v[..v.len() - 1].to_vec(), 2).is_none());
    let mut asym = v.clone();
    asym[3] = 5;
    assert!(BanditState::decode(&asym, 2).is_none());
    let loaded = BanditState::load(&vec![1, 2, 3], 2);
    assert_eq!(loaded.arms[2].a, vec![vec![UNIT_SQ, 0], vec![0, UNIT_SQ]]);
}

#[test]
fn statistics_count_rewards() {
    let mut s = BanditState::new(2);
    s.update(Action::Allow, &vec![1, 0], 1_000_000);
    s.update(Action::Block, &vec![0, 1], -250_000);
    s.update(Action::Block, &vec![0, 1], 500_000);
    let st = s.get_statistics();
    assert_eq!(st.total_count, 3);
    assert_eq!(st.total_reward, 1_250_000);
    assert_eq!(st.arm_counts, vec![1, 0, 2]);
}

use microscope::circuit::{CircuitNode, ComponentType, IOISentence, KnownIOIHeads};

#[test]
fn test_ioi_sentence_positions() {
    // "Mary and John went to the store, John gave a drink to" — positions
    // annotated by hand as a caller would.
    let sentence = IOISentence::new(
        vec![10, 11, 12, 13, 14, 15, 16, 17, 18, 19, 20, 21],
        vec![
            "Mary".to_string(),
            "and".to_string(),
            "John".to_string(),
            "went".to_string(),
            "to".to_string(),
            "the".to_string(),
            "store".to_string(),
            "John".to_string(),
            "gave".to_string(),
            "a".to_string(),
            "drink".to_string(),
            "to".to_string(),
        ],
        vec![2],
        0,
        7,
        11,
        "Mary".to_string(),
        "John".to_string(),
    );

    assert_eq!(sentence.io_position(), Some(0));
    assert_eq!(sentence.s2_position(), Some(7));
    assert_eq!(sentence.end_position(), Some(11));
    assert_eq!(sentence.correct_answer, "Mary");
    assert_eq!(sentence.distractor, "John");
    assert_eq!(sentence.tokens.len(), 12);
}

#[test]
fn test_known_ioi_heads_gpt2() {
    assert_eq!(KnownIOIHeads::name_movers_gpt2(), vec![(9, 9), (10, 0), (9, 6)]);
    assert_eq!(
        KnownIOIHeads::backup_name_movers_gpt2(),
        vec![(10, 10), (10, 6), (10, 2), (11, 2), (9, 7), (10, 1)]
    );
    assert_eq!(KnownIOIHeads::s_inhibition_gpt2(), vec![(7, 3), (7, 9), (8, 6), (8, 10)]);
    assert_eq!(KnownIOIHeads::duplicate_token_gpt2(), vec![(0, 1), (0, 10), (3, 0)]);
}

#[test]
fn test_known_ioi_heads_all_groups() {
    let all = KnownIOIHeads::all_gpt2();
    assert_eq!(all.len(), 4);
    assert_eq!(all[0].0, "name_mover");
    assert_eq!(all[0].1, KnownIOIHeads::name_movers_gpt2());
    assert_eq!(all[1].0, "backup_name_mover");
    assert_eq!(all[2].0, "s_inhibition");
    assert_eq!(all[3].0, "duplicate_token");
    assert_eq!(all[3].1, KnownIOIHeads::duplicate_token_gpt2());
}

#[test]
fn test_circuit_node_identity() {
    let head = CircuitNode {
        layer: 9,
        component: ComponentType::AttentionHead,
        head: Some(9),
        position: None,
    };
    let mlp = CircuitNode { layer: 1, component: ComponentType::MLP, head: None, position: None };
    assert_eq!(head, head.clone());
    assert_ne!(head, mlp);
    assert_eq!(mlp.component, ComponentType::MLP);
}

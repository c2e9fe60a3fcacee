use minimint_ln::conflictfilter::{ConflictFilter, ConflictFilterable, Input, Transaction};

fn mint_tx(commitments: Vec<Vec<u8>>) -> Transaction {
    Transaction {
        inputs: vec![Input::Mint(commitments)],
    }
}

fn commitments(seed: u8) -> Vec<Vec<u8>> {
    vec![vec![seed; 16], vec![seed + 1; 16]]
}

#[test]
fn duplicate_mint_notes_drop_the_whole_transaction() {
    let first = mint_tx(commitments(1));
    // The second transaction reuses the same notes but also carries an
    // otherwise valid, distinct input: it is dropped entirely.
    let second = Transaction {
        inputs: vec![
            Input::Mint(commitments(1)),
            Input::LN(vec![7u8; 32]),
        ],
    };
    let kept = vec![first, second].filter_conflicts();
    assert_eq!(kept.len(), 1);
    assert!(matches!(&kept[0].inputs[0], Input::Mint(c) if *c == commitments(1)));
}

#[test]
fn replayed_transaction_is_dropped() {
    let tx = |id: u8| Transaction {
        inputs: vec![Input::LN(vec![id; 32])],
    };
    let kept = vec![tx(1), tx(1)].filter_conflicts();
    assert_eq!(kept.len(), 1);
}

#[test]
fn duplicate_peg_in_proof_is_dropped() {
    let tx = Transaction {
        inputs: vec![Input::Wallet(vec![9u8; 40])],
    };
    let other = Transaction {
        inputs: vec![Input::Wallet(vec![9u8; 40])],
    };
    let kept = vec![tx, other].filter_conflicts();
    assert_eq!(kept.len(), 1);
}

#[test]
fn independent_transactions_all_pass() {
    let kept = vec![
        mint_tx(commitments(1)),
        mint_tx(commitments(10)),
        Transaction {
            inputs: vec![Input::Wallet(vec![3u8; 40]), Input::LN(vec![4u8; 32])],
        },
    ]
    .filter_conflicts();
    assert_eq!(kept.len(), 3);
}

#[test]
fn duplicate_inputs_within_one_transaction_reject_it() {
    let tx = Transaction {
        inputs: vec![Input::LN(vec![5u8; 32]), Input::LN(vec![5u8; 32])],
    };
    let kept = vec![tx].filter_conflicts();
    assert_eq!(kept.len(), 0);
}

#[test]
fn rejected_transaction_contributes_no_keys() {
    // The second transaction conflicts on its first input; its second
    // input's key must not be recorded, so a later spend of that
    // contract still passes.
    let first = mint_tx(commitments(1));
    let second = Transaction {
        inputs: vec![Input::Mint(commitments(1)), Input::LN(vec![8u8; 32])],
    };
    let third = Transaction {
        inputs: vec![Input::LN(vec![8u8; 32])],
    };
    let kept = vec![first, second, third].filter_conflicts();
    assert_eq!(kept.len(), 2);
    assert!(matches!(&kept[1].inputs[0], Input::LN(id) if *id == vec![8u8; 32]));
}

#[test]
fn filter_state_is_per_instance() {
    let mut filter = ConflictFilter::new();
    let tx = Transaction {
        inputs: vec![Input::LN(vec![6u8; 32])],
    };
    assert!(filter.next(tx).is_some());
    let replay = Transaction {
        inputs: vec![Input::LN(vec![6u8; 32])],
    };
    assert!(filter.next(replay).is_none());
    // A fresh filter, as used for the next epoch, accepts it again.
    let mut fresh = ConflictFilter::new();
    let again = Transaction {
        inputs: vec![Input::LN(vec![6u8; 32])],
    };
    assert!(fresh.next(again).is_some());
}

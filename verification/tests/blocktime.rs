use fedimint_observer::blocktime::{
    pass_synchronizer, resume_height, Appended, BlockTime, BlockTimes, BLOCK_FLOOR, BLOCK_WINDOW,
    PASS_INTERVAL_SECS,
};

#[test]
fn block_constants() {
    assert_eq!(BLOCK_FLOOR, 820_000);
    assert_eq!(BLOCK_WINDOW, 4);
    assert_eq!(PASS_INTERVAL_SECS, 10);
}

#[test]
fn resume_height_is_one_above_the_last_or_the_floor() {
    assert_eq!(resume_height(None), Some(820_001));
    assert_eq!(resume_height(Some(820_001)), Some(820_002));
    assert_eq!(resume_height(Some(0)), Some(1));
    assert_eq!(resume_height(Some(u32::MAX as u64 - 1)), Some(u32::MAX));
    assert_eq!(resume_height(Some(u32::MAX as u64)), None);
    assert_eq!(resume_height(Some(u64::MAX)), None);
}

#[test]
fn index_takes_only_the_next_height() {
    let mut index = BlockTimes::new();
    assert_eq!(index.len(), 0);
    assert_eq!(index.last_height(), None);
    assert_eq!(index.append(BlockTime { height: 820_000, time: 1 }), Appended::OutOfOrder);
    assert_eq!(index.append(BlockTime { height: 820_002, time: 1 }), Appended::OutOfOrder);
    assert_eq!(index.append(BlockTime { height: 0, time: 1 }), Appended::OutOfOrder);
    assert_eq!(index.len(), 0);
    assert_eq!(index.append(BlockTime { height: 820_001, time: 1_701_000_000 }), Appended::Inserted);
    assert_eq!(index.append(BlockTime { height: 820_002, time: 1_701_000_600 }), Appended::Inserted);
    assert_eq!(index.len(), 2);
    assert_eq!(index.last_height(), Some(820_002));
    assert_eq!(index.time_at(820_001), Some(1_701_000_000));
    assert_eq!(index.time_at(820_002), Some(1_701_000_600));
    assert_eq!(index.time_at(820_003), None);
    assert_eq!(index.time_at(820_000), None);
    assert_eq!(index.time_at(0), None);
}

#[test]
fn duplicate_height_is_recognised_and_changes_nothing() {
    let mut index = BlockTimes::new();
    assert_eq!(index.append(BlockTime { height: 820_001, time: 5 }), Appended::Inserted);
    assert_eq!(index.append(BlockTime { height: 820_001, time: 6 }), Appended::Duplicate);
    assert_eq!(index.len(), 1);
    assert_eq!(index.time_at(820_001), Some(5));
    assert_eq!(index.rows(), vec![BlockTime { height: 820_001, time: 5 }]);
}

#[test]
fn one_pass_backfills_every_height_up_to_the_tip() {
    let mut index = BlockTimes::new();
    let resume = resume_height(index.last_height()).unwrap();
    let tip = resume + 9;
    let mut sync = pass_synchronizer(resume, tip);
    let mut in_flight: Vec<u64> = Vec::new();
    while !sync.is_finished() {
        while let Some(height) = sync.next_fetch() {
            in_flight.push(height);
        }
        assert!(in_flight.len() <= BLOCK_WINDOW);
        if let Some(height) = in_flight.pop() {
            assert_eq!(sync.fetched(height, height as u32 * 2), Ok(()));
        }
        while let Some((height, time)) = sync.begin_commit() {
            let outcome = index.append(BlockTime { height: height as u32, time });
            assert_eq!(outcome, Appended::Inserted);
            sync.commit_done(true);
        }
    }
    assert_eq!(index.len(), 10);
    let rows = index.rows();
    for (offset, row) in rows.iter().enumerate() {
        assert_eq!(row.height, resume + offset as u32);
        assert_eq!(row.time, row.height * 2);
    }
    assert_eq!(index.last_height(), Some(tip as u64));
    assert_eq!(sync.committed(), tip as u64 + 1);
}

#[test]
fn pass_with_nothing_new_is_finished_at_once() {
    let mut sync = pass_synchronizer(820_005, 820_004);
    assert!(sync.is_finished());
    assert_eq!(sync.next_fetch(), None);
    let mut single = pass_synchronizer(820_005, 820_005);
    assert!(!single.is_finished());
    assert_eq!(single.next_fetch(), Some(820_005));
    assert_eq!(single.next_fetch(), None);
}

#[test]
fn pass_reaches_the_highest_height() {
    let mut sync = pass_synchronizer(u32::MAX, u32::MAX);
    assert_eq!(sync.next_fetch(), Some(u32::MAX as u64));
    assert_eq!(sync.fetched(u32::MAX as u64, 1), Ok(()));
    assert_eq!(sync.begin_commit(), Some((u32::MAX as u64, 1)));
    sync.commit_done(true);
    assert!(sync.is_finished());
}

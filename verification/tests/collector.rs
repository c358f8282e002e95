use segment_core::error::Error;
use segment_core::top_docs::{ScoreDoc, TopDocsCollector, TopDocsLeafCollector};

fn score_key(score: f32) -> i32 {
    let score = if score == 0.0 { 0.0 } else { score };
    let bits = score.to_bits() as i32;
    if bits < 0 {
        bits ^ 0x7fff_ffff
    } else {
        bits
    }
}

#[test]
fn test_collect() {
    let docs = vec![1, 2, 3, 3, 5];

    let mut collector = TopDocsCollector::new(3);

    {
        collector.set_next_reader(0, 0).unwrap();
        for doc in docs {
            collector.collect(doc, score_key(doc as f32)).unwrap();
        }
    }

    let top_docs = collector.top_docs();
    assert_eq!(top_docs.total_hits(), 5);

    let score_docs = top_docs.score_docs();
    assert_eq!(score_docs.len(), 3);
    assert_eq!(score_docs[0].doc_id(), 5);
    assert_eq!(score_docs[1].doc_id(), 3);
    assert_eq!(score_docs[2].doc_id(), 3);
}

#[test]
fn score_keys_order_as_scores_do() {
    let scores = [-3.5f32, -1.0, -0.0, 0.0, 0.25, 1.0, 2.0, 3.0e9];
    for i in 0..scores.len() {
        for j in 0..scores.len() {
            assert_eq!(scores[i] < scores[j], score_key(scores[i]) < score_key(scores[j]));
            assert_eq!(scores[i] == scores[j], score_key(scores[i]) == score_key(scores[j]));
        }
    }
}

#[test]
fn keeps_the_three_best_of_five() {
    let mut collector = TopDocsCollector::new(3);
    collector.set_next_reader(0, 0).unwrap();
    let scores = [1, 2, 3, 3, 5];
    for (i, score) in scores.iter().enumerate() {
        collector.collect(i as i32 + 1, *score).unwrap();
    }
    let top = collector.top_docs();
    assert_eq!(top.total_hits, 5);
    assert_eq!(top.score_docs.len(), 3);
    assert_eq!(top.score_docs[0], ScoreDoc { doc: 5, score: 5 });
    assert_eq!(top.score_docs[1].score, 3);
    assert_eq!(top.score_docs[2].score, 3);
    let mut tied = vec![top.score_docs[1].doc, top.score_docs[2].doc];
    tied.sort();
    assert_eq!(tied, vec![3, 4]);
}

#[test]
fn equal_score_does_not_replace_the_lowest() {
    let mut collector = TopDocsCollector::new(2);
    collector.set_next_reader(0, 0).unwrap();
    collector.collect(1, 10).unwrap();
    collector.collect(2, 20).unwrap();
    collector.collect(3, 10).unwrap();
    let top = collector.top_docs();
    assert_eq!(top.total_hits, 3);
    assert_eq!(
        top.score_docs,
        vec![ScoreDoc { doc: 2, score: 20 }, ScoreDoc { doc: 1, score: 10 }]
    );
}

#[test]
fn fewer_documents_than_capacity() {
    let mut collector = TopDocsCollector::new(10);
    collector.set_next_reader(0, 100).unwrap();
    collector.collect(1, -4).unwrap();
    collector.collect(2, 7).unwrap();
    let top = collector.top_docs();
    assert_eq!(top.total_hits, 2);
    assert_eq!(
        top.score_docs,
        vec![ScoreDoc { doc: 102, score: 7 }, ScoreDoc { doc: 101, score: -4 }]
    );
    let again = collector.top_docs();
    assert_eq!(again.total_hits, 2);
    assert!(again.score_docs.is_empty());
}

#[test]
fn capacity_zero_only_counts() {
    let mut collector = TopDocsCollector::new(0);
    collector.set_next_reader(0, 0).unwrap();
    collector.collect(1, 1).unwrap();
    collector.collect(2, 2).unwrap();
    let top = collector.top_docs();
    assert_eq!(top.total_hits, 2);
    assert!(top.score_docs.is_empty());
}

#[test]
fn ids_are_shifted_by_the_segment_base() {
    let mut collector = TopDocsCollector::new(4);
    collector.set_next_reader(0, 0).unwrap();
    collector.collect(3, 1).unwrap();
    collector.set_next_reader(1, 1000).unwrap();
    collector.collect(3, 2).unwrap();
    let top = collector.top_docs();
    assert_eq!(
        top.score_docs,
        vec![ScoreDoc { doc: 1003, score: 2 }, ScoreDoc { doc: 3, score: 1 }]
    );
}

#[test]
fn collect_without_a_segment_fails() {
    let mut collector = TopDocsCollector::new(3);
    assert_eq!(collector.collect(1, 1), Err(Error::IllegalState));
    collector.set_next_reader(0, i32::MAX).unwrap();
    assert_eq!(collector.collect(1, 1), Err(Error::IllegalArgument));
    assert_eq!(collector.collect(0, 1), Ok(()));
    let top = collector.top_docs();
    assert_eq!(top.total_hits, 1);
    assert!(collector.support_parallel());
    assert!(collector.needs_scores());
}

#[test]
fn finish_without_leaf_collectors_changes_nothing() {
    let mut collector = TopDocsCollector::new(3);
    assert_eq!(collector.finish(), Ok(()));
    collector.set_next_reader(0, 10).unwrap();
    collector.collect(1, 5).unwrap();
    assert_eq!(collector.finish(), Ok(()));
    let top = collector.top_docs();
    assert_eq!(top.total_hits, 1);
    assert_eq!(top.score_docs, vec![ScoreDoc { doc: 11, score: 5 }]);
}

#[test]
fn finish_closes_the_channel() {
    let mut collector = TopDocsCollector::new(3);
    let mut leaf = collector.leaf_collector(7).unwrap();
    leaf.collect(1, 4).unwrap();
    drop(leaf);
    assert_eq!(collector.finish(), Ok(()));
    assert_eq!(collector.finish(), Ok(()));
    let top = collector.top_docs();
    assert_eq!(top.total_hits, 1);
    assert_eq!(top.score_docs, vec![ScoreDoc { doc: 8, score: 4 }]);
}

#[test]
fn outgoing_shifts_the_id_and_keeps_the_score() {
    assert_eq!(TopDocsLeafCollector::outgoing(3, 100, 9), Some(ScoreDoc { doc: 103, score: 9 }));
    assert_eq!(TopDocsLeafCollector::outgoing(0, 0, -1), Some(ScoreDoc { doc: 0, score: -1 }));
    assert_eq!(
        TopDocsLeafCollector::outgoing(i32::MAX, 0, 2),
        Some(ScoreDoc { doc: i32::MAX, score: 2 })
    );
    assert_eq!(TopDocsLeafCollector::outgoing(i32::MAX, 1, 2), None);
    assert_eq!(TopDocsLeafCollector::outgoing(i32::MIN, -1, 2), None);
}

#[test]
fn leaf_collectors_merge_like_one_collector() {
    let segments: Vec<(i32, Vec<(i32, i32)>)> = vec![
        (0, vec![(0, 5), (1, 9), (2, 1)]),
        (100, vec![(0, 7), (1, 7), (2, 2), (3, 11)]),
        (200, vec![(0, 3)]),
    ];

    let mut parallel = TopDocsCollector::new(4);
    let mut leaves = Vec::new();
    for (base, _) in &segments {
        leaves.push(parallel.leaf_collector(*base).unwrap());
    }
    for (leaf, (_, docs)) in leaves.iter_mut().zip(&segments) {
        assert!(leaf.needs_scores());
        for (doc, score) in docs {
            leaf.collect(*doc, *score).unwrap();
        }
        leaf.finish_leaf().unwrap();
    }
    drop(leaves);
    parallel.finish().unwrap();
    let merged = parallel.top_docs();

    let mut sequential = TopDocsCollector::new(4);
    for (ord, (base, docs)) in segments.iter().enumerate() {
        sequential.set_next_reader(ord, *base).unwrap();
        for (doc, score) in docs {
            sequential.collect(*doc, *score).unwrap();
        }
    }
    let expected = sequential.top_docs();

    assert_eq!(merged.total_hits, 8);
    assert_eq!(merged.total_hits, expected.total_hits);
    assert_eq!(merged.score_docs, expected.score_docs);
    assert_eq!(
        merged.score_docs,
        vec![
            ScoreDoc { doc: 103, score: 11 },
            ScoreDoc { doc: 1, score: 9 },
            ScoreDoc { doc: 100, score: 7 },
            ScoreDoc { doc: 101, score: 7 },
        ]
    );
}

#[test]
fn merge_gives_every_document() {
    let mut collector = TopDocsCollector::new(2);
    let docs = vec![ScoreDoc::new(1, 4), ScoreDoc::new(2, 6), ScoreDoc::new(3, 5)];
    assert_eq!(collector.merge(&docs), Ok(()));
    let top = collector.top_docs();
    assert_eq!(top.total_hits, 3);
    assert_eq!(top.score_docs, vec![ScoreDoc::new(2, 6), ScoreDoc::new(3, 5)]);
    assert_eq!(top.score_docs[0].score(), 6);
}

#[test]
fn sending_into_a_closed_channel_fails() {
    let (sender, receiver) = crossbeam_channel::unbounded();
    let mut leaf = TopDocsLeafCollector::new(10, sender);
    assert_eq!(leaf.collect(1, 1), Ok(()));
    assert_eq!(receiver.recv().unwrap(), ScoreDoc { doc: 11, score: 1 });
    assert_eq!(leaf.collect(i32::MAX, 1), Err(Error::IllegalArgument));
    drop(receiver);
    assert_eq!(leaf.collect(2, 1), Err(Error::ChannelFailure));
    assert_eq!(TopDocsLeafCollector::delivered(true), Ok(()));
    assert_eq!(TopDocsLeafCollector::delivered(false), Err(Error::ChannelFailure));
}

#[test]
fn arrival_order_does_not_change_the_scores() {
    let docs = vec![
        ScoreDoc::new(1, 4),
        ScoreDoc::new(2, 9),
        ScoreDoc::new(3, 4),
        ScoreDoc::new(4, -2),
        ScoreDoc::new(5, 7),
        ScoreDoc::new(6, 4),
    ];
    let mut reversed = docs.clone();
    reversed.reverse();
    let mut rotated = docs.clone();
    rotated.rotate_left(2);
    for capacity in 0..8 {
        let mut expected: Vec<i32> = docs.iter().map(|d| d.score).collect();
        expected.sort();
        expected.reverse();
        expected.truncate(capacity);
        for order in [&docs, &reversed, &rotated] {
            let mut collector = TopDocsCollector::new(capacity);
            collector.merge(order).unwrap();
            let top = collector.top_docs();
            assert_eq!(top.total_hits, 6);
            let scores: Vec<i32> = top.score_docs.iter().map(|d| d.score).collect();
            assert_eq!(scores, expected);
        }
    }
}

#[test]
fn add_doc_counts_and_ranks() {
    let mut collector = TopDocsCollector::new(2);
    collector.add_doc(7, 1);
    collector.add_doc(8, 3);
    collector.add_doc(9, 2);
    let top = collector.top_docs();
    assert_eq!(top.total_hits, 3);
    assert_eq!(top.score_docs, vec![ScoreDoc::new(8, 3), ScoreDoc::new(9, 2)]);
}

#[test]
fn arrival_order_changes_only_ties_at_the_lowest_score() {
    let docs = vec![
        ScoreDoc::new(1, 4),
        ScoreDoc::new(2, 9),
        ScoreDoc::new(3, 4),
        ScoreDoc::new(4, -2),
        ScoreDoc::new(5, 7),
        ScoreDoc::new(6, 4),
    ];
    let mut reversed = docs.clone();
    reversed.reverse();
    for capacity in 1..8 {
        let mut first = TopDocsCollector::new(capacity);
        first.merge(&docs).unwrap();
        let first = first.top_docs().score_docs;
        let mut second = TopDocsCollector::new(capacity);
        second.merge(&reversed).unwrap();
        let second = second.top_docs().score_docs;
        assert_eq!(first.len(), second.len());
        let lowest = first[first.len() - 1].score;
        assert_eq!(second[second.len() - 1].score, lowest);
        let mut above_first: Vec<i32> =
            first.iter().filter(|d| d.score > lowest).map(|d| d.doc).collect();
        let mut above_second: Vec<i32> =
            second.iter().filter(|d| d.score > lowest).map(|d| d.doc).collect();
        above_first.sort();
        above_second.sort();
        assert_eq!(above_first, above_second);
        for kept in first.iter().chain(second.iter()) {
            assert!(docs.contains(kept));
        }
    }
    let mut first = TopDocsCollector::new(3);
    first.merge(&docs).unwrap();
    assert_eq!(
        first.top_docs().score_docs,
        vec![ScoreDoc::new(2, 9), ScoreDoc::new(5, 7), ScoreDoc::new(1, 4)]
    );
    let mut second = TopDocsCollector::new(3);
    second.merge(&reversed).unwrap();
    assert_eq!(
        second.top_docs().score_docs,
        vec![ScoreDoc::new(2, 9), ScoreDoc::new(5, 7), ScoreDoc::new(6, 4)]
    );
}

use lightfusion::batching::{absorb_scores, uneven_row};
use lightfusion::{
    argmax, call_model, create_batched_tensor, flatten_batched_tensor, Batches, BridgeError,
    ListColumn,
};
use std::cell::Cell;

fn column(rows: &[Vec<f32>]) -> ListColumn<f32> {
    let mut values = Vec::new();
    let mut offsets = vec![0usize];
    for r in rows {
        values.extend_from_slice(r);
        offsets.push(values.len());
    }
    ListColumn { values, offsets }
}

fn rows_of<T: Copy>(c: &ListColumn<T>) -> Vec<Vec<T>> {
    (0..c.offsets.len() - 1)
        .map(|i| c.values[c.offsets[i]..c.offsets[i + 1]].to_vec())
        .collect()
}

// A model that scores each row on its own: its sum and its first value.
fn row_model(t: &[f32], n: usize, _multi: bool) -> Result<Vec<f64>, String> {
    let mut out = Vec::new();
    for row in t.chunks(n) {
        out.push(row.iter().map(|x| *x as f64).sum());
        out.push(row[0] as f64);
    }
    Ok(out)
}

fn sample() -> ListColumn<f32> {
    column(&[
        vec![1.0, 2.0, 3.0],
        vec![4.0, 5.0, 6.0],
        vec![7.0, 8.0, 9.0],
        vec![-1.0, 0.5, 0.25],
        vec![10.0, 0.0, 0.0],
    ])
}

#[test]
fn batch_size_does_not_change_scores() {
    let col = sample();
    let expected = call_model(&col, 1, row_model).unwrap();
    for bs in [2usize, 3, 5, 105] {
        let got = call_model(&col, bs, row_model).unwrap();
        assert_eq!(got.offsets, expected.offsets);
        assert_eq!(got.values, expected.values);
    }
}

#[test]
fn rows_keep_count_and_order() {
    let col = sample();
    let out = call_model(&col, 2, row_model).unwrap();
    assert_eq!(
        rows_of(&out),
        vec![
            vec![6.0, 1.0],
            vec![15.0, 4.0],
            vec![24.0, 7.0],
            vec![-0.25, -1.0],
            vec![10.0, 10.0],
        ]
    );
    assert_eq!(out.offsets, vec![0, 2, 4, 6, 8, 10]);
}

#[test]
fn zero_rows_never_call_the_model() {
    let col = column(&[]);
    let out = call_model(&col, 4, |_t: &[f32], _n: usize, _m: bool| -> Result<Vec<f64>, String> {
        panic!("the model must not run on an empty column")
    })
    .unwrap();
    assert_eq!(out.offsets, vec![0]);
    assert!(out.values.is_empty());
}

#[test]
fn batches_are_bounded_and_flag_multi_row_calls() {
    let col = sample();
    let calls = Cell::new(0usize);
    let multi_calls = Cell::new(0usize);
    let predict = |t: &[f32], n: usize, multi: bool| -> Result<Vec<f64>, String> {
        let rows = t.len() / n;
        assert!(rows <= 2);
        assert_eq!(multi, rows > 1);
        calls.set(calls.get() + 1);
        if multi {
            multi_calls.set(multi_calls.get() + 1);
        }
        row_model(t, n, multi)
    };
    call_model(&col, 2, predict).unwrap();
    assert_eq!(calls.get(), 3);
    assert_eq!(multi_calls.get(), 2);
}

#[test]
fn ragged_batch_is_rejected() {
    let col = column(&[vec![1.0, 2.0], vec![3.0, 4.0, 5.0]]);
    match call_model(&col, 2, row_model) {
        Err(BridgeError::RaggedRows(i)) => assert_eq!(i, 1),
        _ => panic!("expected a ragged-rows error"),
    }
    let out = call_model(&col, 1, row_model).unwrap();
    assert_eq!(rows_of(&out), vec![vec![3.0, 1.0], vec![12.0, 3.0]]);
}

#[test]
fn model_error_is_handed_on() {
    let col = sample();
    let r = call_model(&col, 2, |_t: &[f32], _n: usize, _m: bool| -> Result<Vec<f64>, String> {
        Err("corrupt model".to_string())
    });
    match r {
        Err(BridgeError::Model(e)) => assert_eq!(e, "corrupt model"),
        _ => panic!("expected the model's error"),
    }
}

#[test]
fn uneven_scores_are_rejected() {
    let col = sample();
    let r = call_model(&col, 2, |_t: &[f32], _n: usize, _m: bool| -> Result<Vec<f64>, String> {
        Ok(vec![1.0, 2.0, 3.0])
    });
    assert!(matches!(r, Err(BridgeError::UnevenScores)));
}

#[test]
fn tensor_builder_walks_partial_last_batch() {
    let col = sample();
    let (t, next, rows) = create_batched_tensor(0, 2, &col).unwrap();
    assert_eq!(t, &[1.0, 2.0, 3.0, 4.0, 5.0, 6.0]);
    assert_eq!((next, rows), (2, 2));
    let (t, next, rows) = create_batched_tensor(4, 2, &col).unwrap();
    assert_eq!(t, &[10.0, 0.0, 0.0]);
    assert_eq!((next, rows), (5, 1));
    assert!(create_batched_tensor(5, 2, &col).is_none());
    let (_, next, rows) = create_batched_tensor(0, 100, &col).unwrap();
    assert_eq!((next, rows), (5, 5));
    assert!(create_batched_tensor(0, 0, &col).is_none());
}

#[test]
fn reassembler_appends_equal_rows() {
    let mut out: ListColumn<f64> = ListColumn::empty();
    flatten_batched_tensor(&[1.0, 2.0, 3.0], 1, &mut out);
    flatten_batched_tensor(&[4.0, 5.0, 6.0, 7.0], 2, &mut out);
    assert_eq!(out.offsets, vec![0, 3, 5, 7]);
    assert_eq!(out.values, vec![1.0, 2.0, 3.0, 4.0, 5.0, 6.0, 7.0]);
    assert_eq!(out.len(), 3);
    assert!(out.check());
}

#[test]
fn column_check_spots_bad_offsets() {
    let bad = ListColumn { values: vec![1u8, 2, 3], offsets: vec![0, 2, 1, 3] };
    assert!(!bad.check());
    let short = ListColumn { values: vec![1u8, 2, 3], offsets: vec![0, 2] };
    assert!(!short.check());
    assert!(sample().check());
}

#[test]
fn argmax_takes_first_largest() {
    assert_eq!(argmax(&[3, 9, 9, 1]), Some(1));
    assert_eq!(argmax(&[-5]), Some(0));
    assert_eq!(argmax(&[1, 2, 3, 4]), Some(3));
    assert_eq!(argmax(&[7, 7, 7]), Some(0));
    assert_eq!(argmax(&[]), None);
}

#[test]
fn argmax_of_multiclass_scores() {
    // The five class scores of one row, scaled to integers with their order kept.
    let keys = [
        21591763144158005i64,
        34691953721756280,
        33502631180449255,
        3381740990463416,
        6831910963173049,
    ];
    assert_eq!(argmax(&keys), Some(1));
}

#[test]
fn batches_cover_every_row_once() {
    let col = sample();
    let mut b = Batches::new(&col, 2);
    let mut sizes = Vec::new();
    let mut seen = Vec::new();
    while let Some((t, rows)) = b.next_batch() {
        sizes.push(rows);
        seen.extend_from_slice(t);
    }
    assert_eq!(sizes, vec![2, 2, 1]);
    assert_eq!(seen, col.values);
    assert_eq!(b.next_row(), 5);
    assert!(b.next_batch().is_none());
    let empty = column(&[]);
    assert!(Batches::new(&empty, 3).next_batch().is_none());
}

#[test]
fn tensor_builder_past_the_end_is_none() {
    let col = sample();
    assert!(create_batched_tensor(9, 2, &col).is_none());
    assert!(create_batched_tensor(9, 0, &col).is_none());
}

#[test]
fn absorb_scores_reports_each_refusal() {
    let mut out: ListColumn<u32> = ListColumn::empty();
    let r: Result<(), BridgeError<String>> = absorb_scores(&mut out, &[1, 2, 3], 2);
    assert!(matches!(r, Err(BridgeError::UnevenScores)));
    assert_eq!(out.offsets, vec![0]);
    let r: Result<(), BridgeError<String>> = absorb_scores(&mut out, &[1, 2, 3, 4], 2);
    assert!(r.is_ok());
    assert_eq!(out.offsets, vec![0, 2, 4]);
    assert_eq!(out.values, vec![1, 2, 3, 4]);
}

#[test]
fn uneven_row_names_first_mismatch() {
    let col = column(&[vec![1.0], vec![2.0], vec![3.0, 4.0], vec![5.0]]);
    assert_eq!(uneven_row(&col, 0, 2), None);
    assert_eq!(uneven_row(&col, 0, 4), Some(2));
    assert_eq!(uneven_row(&col, 2, 3), None);
}

#[test]
fn fixed_scores_per_row_give_regular_offsets() {
    let col = sample();
    for bs in [1usize, 2, 3, 5, 105] {
        let out = call_model(&col, bs, |t: &[f32], n: usize, _m: bool| -> Result<Vec<u8>, String> {
            Ok(vec![7; 3 * (t.len() / n)])
        })
        .unwrap();
        assert_eq!(out.offsets, vec![0, 3, 6, 9, 12, 15]);
        assert_eq!(out.values.len(), 15);
    }
}

#[test]
fn first_model_failure_stops_the_work() {
    let col = sample();
    let calls = Cell::new(0usize);
    let r = call_model(&col, 2, |t: &[f32], n: usize, _m: bool| -> Result<Vec<f64>, String> {
        calls.set(calls.get() + 1);
        if calls.get() == 2 {
            Err(format!("failed on call {}", calls.get()))
        } else {
            row_model(t, n, false)
        }
    });
    match r {
        Err(BridgeError::Model(e)) => assert_eq!(e, "failed on call 2"),
        _ => panic!("expected the model's error"),
    }
    assert_eq!(calls.get(), 2);
}

#[test]
fn ragged_batch_never_reaches_the_model() {
    let col = column(&[vec![1.0, 2.0], vec![3.0, 4.0, 5.0]]);
    let r = call_model(&col, 2, |_t: &[f32], _n: usize, _m: bool| -> Result<Vec<f64>, String> {
        panic!("a ragged batch must be refused first")
    });
    assert!(matches!(r, Err(BridgeError::RaggedRows(1))));
}

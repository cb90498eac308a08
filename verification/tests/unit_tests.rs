use cs165::client_context::ClientContext;
use cs165::client_context::Numval;
use cs165::db::Db;
use cs165::engine::process_command;
use cs165::message::ServerMessage;
use cs165::threads::ThreadsFlag;
use cs165::column::{Column, ColumnIndex};
use cs165::command::agg::{max_value, min_value, sum_wrapped};
use cs165::persist::{decode_values, encode_values};
use cs165::render::{avg_to_string, i32_to_string, i64_to_string, u64_to_string};
use cs165::table::Table;
use cs165::text::{parse_i32, parse_u64};

#[test]
fn integer_rendering() {
    assert_eq!(u64_to_string(0), "0");
    assert_eq!(u64_to_string(105), "105");
    assert_eq!(i64_to_string(-17), "-17");
    assert_eq!(i64_to_string(i64::MIN), "-9223372036854775808");
    assert_eq!(i32_to_string(i32::MIN), "-2147483648");
    assert_eq!(i32_to_string(i32::MAX), "2147483647");
}

#[test]
fn average_rendering_two_decimals() {
    assert_eq!(avg_to_string(0, 0), "0.00");
    assert_eq!(avg_to_string(10, 4), "2.50");
    assert_eq!(avg_to_string(100, 3), "33.33");
    assert_eq!(avg_to_string(-5, 2), "-2.50");
    assert_eq!(avg_to_string(-1, 1000), "-0.00");
    assert_eq!(avg_to_string(1, 1), "1.00");
}

#[test]
fn numval_rendering() {
    assert_eq!(Numval::I32(-3).render(), "-3");
    assert_eq!(Numval::I64(100).render(), "100");
    assert_eq!(Numval::Avg { sum: 10, count: 4 }.render(), "2.50");
}

#[test]
fn integer_parsing() {
    assert_eq!(parse_i32("123"), Some(123));
    assert_eq!(parse_i32("-123"), Some(-123));
    assert_eq!(parse_i32("+7"), Some(7));
    assert_eq!(parse_i32("2147483647"), Some(i32::MAX));
    assert_eq!(parse_i32("-2147483648"), Some(i32::MIN));
    assert_eq!(parse_i32("2147483648"), None);
    assert_eq!(parse_i32("99999999999999999999999"), None);
    assert_eq!(parse_i32(""), None);
    assert_eq!(parse_i32("1.5"), None);
    assert_eq!(parse_i32("abc"), None);
    assert_eq!(parse_u64("42"), Some(42));
    assert_eq!(parse_u64("-1"), None);
}

#[test]
fn aggregation_kernels() {
    let empty: Vec<i32> = Vec::new();
    assert_eq!(min_value(&empty), i32::MIN);
    assert_eq!(max_value(&empty), i32::MAX);
    assert_eq!(sum_wrapped(&empty), 0);
    let v = vec![3, -1, 7, 7];
    assert_eq!(min_value(&v), -1);
    assert_eq!(max_value(&v), 7);
    assert_eq!(sum_wrapped(&v), 16);
}

#[test]
fn binsearch_bounds() {
    let mut col = Column::new("c".to_string());
    col.data = vec![1, 3, 3, 5];
    assert_eq!(col.binsearch(3, None, true), 1);
    assert_eq!(col.binsearch(3, None, false), 3);
    assert_eq!(col.binsearch(0, None, true), 0);
    assert_eq!(col.binsearch(9, None, true), 4);
    assert_eq!(col.binsearch(i32::MIN, None, true), 0);
    assert_eq!(col.binsearch(i32::MAX, None, false), 4);
}

#[test]
fn argsort_sorts_through_permutation() {
    let mut col = Column::new("c".to_string());
    col.data = vec![5, 1, 4, 1];
    let sorter = col.argsort();
    let sorted: Vec<i32> = sorter.iter().map(|&i| col.data[i]).collect();
    assert_eq!(sorted, vec![1, 1, 4, 5]);
    let mut check = sorter.clone();
    check.sort();
    assert_eq!(check, vec![0, 1, 2, 3]);
}

#[test]
fn column_blob_round_trip() {
    let values = vec![0, 1, -1, i32::MIN, i32::MAX, 256, -257];
    let blob = encode_values(&values);
    assert_eq!(blob.len(), 4 * values.len());
    assert_eq!(&blob[0..4], &[0, 0, 0, 0]);
    assert_eq!(&blob[4..8], &[1, 0, 0, 0]);
    assert_eq!(&blob[8..12], &[255, 255, 255, 255]);
    let back = decode_values(&blob).expect("well-formed blob");
    assert_eq!(back, values);
    assert_eq!(decode_values(&vec![1, 2, 3]), None);
}

#[test]
fn index_discriminant_round_trip() {
    let variants = vec![
        ColumnIndex::NoIndex,
        ColumnIndex::UnclusteredSorted { sorter: vec![0] },
        ColumnIndex::ClusteredSorted,
    ];
    for idx in variants {
        let d = idx.discriminant();
        let back = ColumnIndex::from_discriminant(d).expect("valid discriminant");
        assert_eq!(back.discriminant(), d);
    }
    assert!(ColumnIndex::from_discriminant(5).is_none());
}

#[test]
fn persistence_rebuild_reproduces_answers() {
    let mut db = Db::new();
    let mut cc = ClientContext::new();
    let mut flag = ThreadsFlag::new();
    for q in [
        "create(db,\"a\")",
        "create(tbl,\"t\",a,2)",
        "create(col,\"x\",a.t)",
        "create(col,\"y\",a.t)",
    ] {
        let (m, _) = process_command(q, &mut db, &mut cc, &mut flag);
        assert!(matches!(m, ServerMessage::Okay));
    }
    db.load_values("a.t.x", &vec![3, 300, 1, 100, 2, 200]).unwrap();
    let (m, _) =
        process_command("create(idx,a.t.x,sorted,clustered)", &mut db, &mut cc, &mut flag);
    assert!(matches!(m, ServerMessage::Okay));

    // Persist: keep names, discriminators and raw blobs only, as the
    // catalog file does; auxiliary structures are dropped.
    let stored: Vec<(String, u8, Vec<u8>)> = (0..2)
        .map(|i| {
            let t = db.tables.get("t").unwrap();
            let c = &t.columns[i];
            (c.name.clone(), c.index.discriminant(), encode_values(&c.data))
        })
        .collect();
    let (n_rows, n_cols, primary) = {
        let t = db.tables.get("t").unwrap();
        (t.n_rows, t.n_cols, t.primary)
    };

    // Relaunch: rebuild the table from the stored parts and recreate the
    // auxiliary index structures without re-sorting.
    let mut columns = Vec::new();
    for (name, d, blob) in stored {
        let data = decode_values(&blob).expect("stored blob");
        let index = ColumnIndex::from_discriminant(d).expect("stored discriminant");
        let mut col = Column::new(name);
        col.data = data;
        col.index = index;
        columns.push(col);
    }
    let mut table = Table { columns, primary, n_rows, n_cols };
    table.recreate_indexes(true);
    let mut db2 = Db::new();
    db2.activate("a").unwrap();
    db2.tables.insert("t", table);

    let mut cc2 = ClientContext::new();
    let answers = |db: &mut Db, cc: &mut ClientContext, flag: &mut ThreadsFlag| {
        for q in ["p=select(a.t.x,2,4)", "v=fetch(a.t.y,p)"] {
            let (m, _) = process_command(q, db, cc, flag);
            assert!(matches!(m, ServerMessage::Okay));
        }
        match process_command("print(v)", db, cc, flag).0 {
            ServerMessage::OkWithPayload(p) => p,
            _ => panic!("print failed"),
        }
    };
    let before = answers(&mut db, &mut cc, &mut flag);
    let after = answers(&mut db2, &mut cc2, &mut flag);
    assert_eq!(before, after);
    assert_eq!(before, "200\n300");
}

#[test]
fn table_insert_arity_error_text() {
    let mut t = Table::new(2);
    match t.insert_row(&vec![1, 2, 3]) {
        Err(cs165::errors::DbError::Internal(m)) => {
            assert_eq!(m, "2 columns, but 3 values given");
        },
        _ => panic!("expected arity error"),
    }
}

use cs165::client_context::ClientContext;
use cs165::db::Db;
use cs165::engine::process_command;
use cs165::message::ServerMessage;
use cs165::threads::ThreadsFlag;

fn run(db: &mut Db, cc: &mut ClientContext, flag: &mut ThreadsFlag, query: &str) -> ServerMessage {
    let (msg, _) = process_command(query, db, cc, flag);
    msg
}

fn expect_ok(db: &mut Db, cc: &mut ClientContext, flag: &mut ThreadsFlag, query: &str) {
    let msg = run(db, cc, flag, query);
    assert!(matches!(msg, ServerMessage::Okay), "query failed: {}", query);
}

fn payload(db: &mut Db, cc: &mut ClientContext, flag: &mut ThreadsFlag, query: &str) -> String {
    match run(db, cc, flag, query) {
        ServerMessage::OkWithPayload(p) => p,
        other => panic!("expected payload for {}: {:?}", query, message_kind(&other)),
    }
}

fn message_kind(m: &ServerMessage) -> &'static str {
    match m {
        ServerMessage::Okay => "Okay",
        ServerMessage::OkTerminate => "OkTerminate",
        ServerMessage::OkWithPayload(_) => "OkWithPayload",
        ServerMessage::InvalidCommand => "InvalidCommand",
        ServerMessage::ParseError(_) => "ParseError",
        ServerMessage::BatchError(_) => "BatchError",
        ServerMessage::ExecutionError(_) => "ExecutionError",
        ServerMessage::UnknownExecutionError => "UnknownExecutionError",
    }
}

fn setup_loaded() -> (Db, ClientContext, ThreadsFlag) {
    let mut db = Db::new();
    let mut cc = ClientContext::new();
    let mut flag = ThreadsFlag::new();
    expect_ok(&mut db, &mut cc, &mut flag, "create(db,\"a\")");
    expect_ok(&mut db, &mut cc, &mut flag, "create(tbl,\"t\",a,2)");
    expect_ok(&mut db, &mut cc, &mut flag, "create(col,\"x\",a.t)");
    expect_ok(&mut db, &mut cc, &mut flag, "create(col,\"y\",a.t)");
    let values = vec![1, 10, 2, 20, 3, 30, 4, 40];
    db.load_values("a.t.x", &values).expect("load failed");
    (db, cc, flag)
}

#[test]
fn load_select_fetch_print() {
    let (mut db, mut cc, mut flag) = setup_loaded();
    expect_ok(&mut db, &mut cc, &mut flag, "p=select(a.t.x,2,4)");
    expect_ok(&mut db, &mut cc, &mut flag, "v=fetch(a.t.y,p)");
    let p = payload(&mut db, &mut cc, &mut flag, "print(v)");
    assert_eq!(p, "20\n30");
}

#[test]
fn aggregation_sum_and_avg() {
    let (mut db, mut cc, mut flag) = setup_loaded();
    expect_ok(&mut db, &mut cc, &mut flag, "s=sum(a.t.y)");
    assert_eq!(payload(&mut db, &mut cc, &mut flag, "print(s)"), "100");
    expect_ok(&mut db, &mut cc, &mut flag, "m=avg(a.t.x)");
    assert_eq!(payload(&mut db, &mut cc, &mut flag, "print(m)"), "2.50");
}

#[test]
fn null_bounds_select_all() {
    let (mut db, mut cc, mut flag) = setup_loaded();
    expect_ok(&mut db, &mut cc, &mut flag, "p=select(a.t.x,null,null)");
    expect_ok(&mut db, &mut cc, &mut flag, "v=fetch(a.t.x,p)");
    assert_eq!(payload(&mut db, &mut cc, &mut flag, "print(v)"), "1\n2\n3\n4");
}

#[test]
fn btree_select_same_positions() {
    let (mut db, mut cc, mut flag) = setup_loaded();
    expect_ok(&mut db, &mut cc, &mut flag, "p1=select(a.t.x,2,4)");
    expect_ok(&mut db, &mut cc, &mut flag, "create(idx,a.t.x,btree,unclustered)");
    expect_ok(&mut db, &mut cc, &mut flag, "p2=select(a.t.x,2,4)");
    expect_ok(&mut db, &mut cc, &mut flag, "v1=fetch(a.t.y,p1)");
    expect_ok(&mut db, &mut cc, &mut flag, "v2=fetch(a.t.y,p2)");
    let a = payload(&mut db, &mut cc, &mut flag, "print(v1)");
    let b = payload(&mut db, &mut cc, &mut flag, "print(v2)");
    let mut sa: Vec<&str> = a.split('\n').collect();
    let mut sb: Vec<&str> = b.split('\n').collect();
    sa.sort();
    sb.sort();
    assert_eq!(sa, sb);
}

#[test]
fn sorted_index_select_same_positions() {
    let (mut db, mut cc, mut flag) = setup_loaded();
    expect_ok(&mut db, &mut cc, &mut flag, "create(idx,a.t.x,sorted,unclustered)");
    expect_ok(&mut db, &mut cc, &mut flag, "p=select(a.t.x,2,4)");
    expect_ok(&mut db, &mut cc, &mut flag, "v=fetch(a.t.y,p)");
    let mut got: Vec<String> =
        payload(&mut db, &mut cc, &mut flag, "print(v)").split('\n').map(String::from).collect();
    got.sort();
    assert_eq!(got, vec!["20".to_string(), "30".to_string()]);
}

#[test]
fn clustered_reorder_co_permutes() {
    let mut db = Db::new();
    let mut cc = ClientContext::new();
    let mut flag = ThreadsFlag::new();
    expect_ok(&mut db, &mut cc, &mut flag, "create(db,\"a\")");
    expect_ok(&mut db, &mut cc, &mut flag, "create(tbl,\"t\",a,2)");
    expect_ok(&mut db, &mut cc, &mut flag, "create(col,\"x\",a.t)");
    expect_ok(&mut db, &mut cc, &mut flag, "create(col,\"y\",a.t)");
    let values = vec![1, 100, 3, 300, 2, 200];
    db.load_values("a.t.x", &values).expect("load failed");
    expect_ok(&mut db, &mut cc, &mut flag, "create(idx,a.t.x,sorted,clustered)");
    expect_ok(&mut db, &mut cc, &mut flag, "p=select(a.t.x,null,null)");
    expect_ok(&mut db, &mut cc, &mut flag, "vx=fetch(a.t.x,p)");
    expect_ok(&mut db, &mut cc, &mut flag, "vy=fetch(a.t.y,p)");
    assert_eq!(payload(&mut db, &mut cc, &mut flag, "print(vx)"), "1\n2\n3");
    assert_eq!(payload(&mut db, &mut cc, &mut flag, "print(vy)"), "100\n200\n300");
}

fn setup_join() -> (Db, ClientContext, ThreadsFlag) {
    let mut db = Db::new();
    let mut cc = ClientContext::new();
    let mut flag = ThreadsFlag::new();
    expect_ok(&mut db, &mut cc, &mut flag, "create(db,\"a\")");
    expect_ok(&mut db, &mut cc, &mut flag, "create(tbl,\"r\",a,2)");
    expect_ok(&mut db, &mut cc, &mut flag, "create(col,\"id\",a.r)");
    expect_ok(&mut db, &mut cc, &mut flag, "create(col,\"val\",a.r)");
    db.load_values("a.r.id", &vec![1, 10, 2, 20, 3, 30]).expect("load failed");
    expect_ok(&mut db, &mut cc, &mut flag, "create(tbl,\"s\",a,2)");
    expect_ok(&mut db, &mut cc, &mut flag, "create(col,\"id\",a.s)");
    expect_ok(&mut db, &mut cc, &mut flag, "create(col,\"val\",a.s)");
    db.load_values("a.s.id", &vec![2, 200, 3, 300, 4, 400]).expect("load failed");
    expect_ok(&mut db, &mut cc, &mut flag, "pr=select(a.r.id,null,null)");
    expect_ok(&mut db, &mut cc, &mut flag, "ps=select(a.s.id,null,null)");
    (db, cc, flag)
}

fn join_pairs_with(alg: &str) -> Vec<(String, String)> {
    let (mut db, mut cc, mut flag) = setup_join();
    let q = format!("j1,j2=join(a.r.id,pr,a.s.id,ps,{})", alg);
    expect_ok(&mut db, &mut cc, &mut flag, &q);
    expect_ok(&mut db, &mut cc, &mut flag, "o1=fetch(a.r.val,j1)");
    expect_ok(&mut db, &mut cc, &mut flag, "o2=fetch(a.s.val,j2)");
    let a = payload(&mut db, &mut cc, &mut flag, "print(o1)");
    let b = payload(&mut db, &mut cc, &mut flag, "print(o2)");
    let mut pairs: Vec<(String, String)> = a
        .split('\n')
        .map(String::from)
        .zip(b.split('\n').map(String::from))
        .collect();
    pairs.sort();
    pairs
}

#[test]
fn join_nested_loop_matches() {
    let pairs = join_pairs_with("nested-loop");
    assert_eq!(
        pairs,
        vec![
            ("20".to_string(), "200".to_string()),
            ("30".to_string(), "300".to_string()),
        ]
    );
}

#[test]
fn join_algorithms_agree() {
    let reference = join_pairs_with("nested-loop");
    assert_eq!(join_pairs_with("naive-hash"), reference);
    assert_eq!(join_pairs_with("grace-hash"), reference);
    assert_eq!(join_pairs_with("hash"), reference);
}

#[test]
fn insert_maintains_unclustered_sorted_index() {
    let (mut db, mut cc, mut flag) = setup_loaded();
    expect_ok(&mut db, &mut cc, &mut flag, "create(idx,a.t.x,sorted,unclustered)");
    expect_ok(&mut db, &mut cc, &mut flag, "relational_insert(a.t,0,5)");
    expect_ok(&mut db, &mut cc, &mut flag, "p=select(a.t.x,null,1)");
    expect_ok(&mut db, &mut cc, &mut flag, "v=fetch(a.t.y,p)");
    assert_eq!(payload(&mut db, &mut cc, &mut flag, "print(v)"), "5");
}

#[test]
fn insert_into_clustered_btree_keeps_order() {
    let (mut db, mut cc, mut flag) = setup_loaded();
    expect_ok(&mut db, &mut cc, &mut flag, "create(idx,a.t.x,btree,clustered)");
    expect_ok(&mut db, &mut cc, &mut flag, "relational_insert(a.t,0,5)");
    expect_ok(&mut db, &mut cc, &mut flag, "p=select(a.t.x,null,null)");
    expect_ok(&mut db, &mut cc, &mut flag, "v=fetch(a.t.x,p)");
    assert_eq!(payload(&mut db, &mut cc, &mut flag, "print(v)"), "0\n1\n2\n3\n4");
}

#[test]
fn open_bounds_agree_across_index_variants() {
    let (mut db, mut cc, mut flag) = setup_loaded();
    expect_ok(&mut db, &mut cc, &mut flag, "p0=select(a.t.x,null,null)");
    expect_ok(&mut db, &mut cc, &mut flag, "v0=fetch(a.t.x,p0)");
    let reference = payload(&mut db, &mut cc, &mut flag, "print(v0)");
    for idx in ["create(idx,a.t.x,sorted,unclustered)", "create(idx,a.t.x,btree,unclustered)"] {
        expect_ok(&mut db, &mut cc, &mut flag, idx);
        expect_ok(&mut db, &mut cc, &mut flag, "p1=select(a.t.x,null,null)");
        expect_ok(&mut db, &mut cc, &mut flag, "v1=fetch(a.t.x,p1)");
        let mut got: Vec<String> = payload(&mut db, &mut cc, &mut flag, "print(v1)")
            .split('\n')
            .map(String::from)
            .collect();
        got.sort();
        let mut want: Vec<String> = reference.split('\n').map(String::from).collect();
        want.sort();
        assert_eq!(got, want);
    }
}

#[test]
fn second_clustered_index_is_rejected() {
    let (mut db, mut cc, mut flag) = setup_loaded();
    expect_ok(&mut db, &mut cc, &mut flag, "create(idx,a.t.x,sorted,clustered)");
    let msg = run(&mut db, &mut cc, &mut flag, "create(idx,a.t.y,sorted,clustered)");
    assert!(matches!(msg, ServerMessage::ExecutionError(_)));
}

#[test]
fn addsub_elementwise_and_length_check() {
    let (mut db, mut cc, mut flag) = setup_loaded();
    expect_ok(&mut db, &mut cc, &mut flag, "s=add(a.t.x,a.t.y)");
    assert_eq!(payload(&mut db, &mut cc, &mut flag, "print(s)"), "11\n22\n33\n44");
    expect_ok(&mut db, &mut cc, &mut flag, "d=sub(a.t.y,a.t.x)");
    assert_eq!(payload(&mut db, &mut cc, &mut flag, "print(d)"), "9\n18\n27\n36");
    expect_ok(&mut db, &mut cc, &mut flag, "p=select(a.t.x,2,4)");
    expect_ok(&mut db, &mut cc, &mut flag, "short=fetch(a.t.x,p)");
    let msg = run(&mut db, &mut cc, &mut flag, "bad=add(a.t.x,short)");
    match msg {
        ServerMessage::ExecutionError(t) => {
            assert_eq!(t, "Value vectors have different lengths: 4 and 2");
        },
        other => panic!("expected length error, got {}", message_kind(&other)),
    }
}

#[test]
fn min_max_on_values() {
    let (mut db, mut cc, mut flag) = setup_loaded();
    expect_ok(&mut db, &mut cc, &mut flag, "lo=min(a.t.x)");
    expect_ok(&mut db, &mut cc, &mut flag, "hi=max(a.t.y)");
    assert_eq!(payload(&mut db, &mut cc, &mut flag, "print(lo,hi)"), "1,40");
}

#[test]
fn select_with_position_vector() {
    let (mut db, mut cc, mut flag) = setup_loaded();
    expect_ok(&mut db, &mut cc, &mut flag, "p=select(a.t.x,2,5)");
    expect_ok(&mut db, &mut cc, &mut flag, "v=fetch(a.t.y,p)");
    expect_ok(&mut db, &mut cc, &mut flag, "q=select(p,v,25,45)");
    expect_ok(&mut db, &mut cc, &mut flag, "w=fetch(a.t.y,q)");
    assert_eq!(payload(&mut db, &mut cc, &mut flag, "print(w)"), "30\n40");
}

#[test]
fn comments_and_invalid_commands() {
    let mut db = Db::new();
    let mut cc = ClientContext::new();
    let mut flag = ThreadsFlag::new();
    assert!(matches!(run(&mut db, &mut cc, &mut flag, "-- a comment"), ServerMessage::Okay));
    assert!(matches!(
        run(&mut db, &mut cc, &mut flag, "nonsense"),
        ServerMessage::InvalidCommand
    ));
    assert!(matches!(
        run(&mut db, &mut cc, &mut flag, "frobnicate(a,b)"),
        ServerMessage::InvalidCommand
    ));
    assert!(matches!(
        run(&mut db, &mut cc, &mut flag, "create(db,a)"),
        ServerMessage::InvalidCommand
    ));
    assert!(matches!(
        run(&mut db, &mut cc, &mut flag, "relational_delete(a.t)"),
        ServerMessage::ExecutionError(_)
    ));
    assert!(matches!(
        run(&mut db, &mut cc, &mut flag, "relational_update(a.t,1)"),
        ServerMessage::ExecutionError(_)
    ));
}

#[test]
fn missing_names_are_errors() {
    let (mut db, mut cc, mut flag) = setup_loaded();
    assert!(matches!(
        run(&mut db, &mut cc, &mut flag, "v=fetch(a.t.z,p)"),
        ServerMessage::ExecutionError(_)
    ));
    assert!(matches!(
        run(&mut db, &mut cc, &mut flag, "p=select(a.t.z,1,2)"),
        ServerMessage::ExecutionError(_)
    ));
    assert!(matches!(
        run(&mut db, &mut cc, &mut flag, "q=select(nopos,a.t.x,1,2)"),
        ServerMessage::ExecutionError(_)
    ));
    assert!(matches!(
        run(&mut db, &mut cc, &mut flag, "s=sum(nope)"),
        ServerMessage::ExecutionError(_)
    ));
    assert!(matches!(
        run(&mut db, &mut cc, &mut flag, "create(tbl,\"t\",a,2)"),
        ServerMessage::ExecutionError(_)
    ));
    assert!(matches!(
        run(&mut db, &mut cc, &mut flag, "create(col,\"x\",a.t)"),
        ServerMessage::ExecutionError(_)
    ));
}

#[test]
fn print_rejects_unequal_lengths() {
    let (mut db, mut cc, mut flag) = setup_loaded();
    expect_ok(&mut db, &mut cc, &mut flag, "p=select(a.t.x,2,4)");
    expect_ok(&mut db, &mut cc, &mut flag, "short=fetch(a.t.y,p)");
    let msg = run(&mut db, &mut cc, &mut flag, "print(a.t.x,short)");
    assert!(matches!(msg, ServerMessage::ExecutionError(_)));
    assert_eq!(payload(&mut db, &mut cc, &mut flag, "print(short,short)"), "20,20\n30,30");
}

#[test]
fn single_core_toggles() {
    let mut db = Db::new();
    let mut cc = ClientContext::new();
    let mut flag = ThreadsFlag::new();
    assert!(matches!(
        run(&mut db, &mut cc, &mut flag, "single_core_execute()"),
        ServerMessage::ExecutionError(_)
    ));
    assert!(matches!(run(&mut db, &mut cc, &mut flag, "single_core()"), ServerMessage::Okay));
    assert!(matches!(
        run(&mut db, &mut cc, &mut flag, "single_core()"),
        ServerMessage::ExecutionError(_)
    ));
    assert!(matches!(
        run(&mut db, &mut cc, &mut flag, "single_core_execute()"),
        ServerMessage::Okay
    ));
    let (msg, shutdown) = process_command("shutdown", &mut db, &mut cc, &mut flag);
    assert!(shutdown);
    assert!(matches!(msg, ServerMessage::OkTerminate));
}

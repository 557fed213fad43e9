//! Tests of the driver logic above the raw codec: query and batch
//! bodies, response decoding, the response router, the pool policy, the
//! keyspace memo and the connect procedure.

use cdrs_core::batch::{BatchQuery, BatchQuerySubj, BatchType, BodyReqBatch};
use cdrs_core::cluster::{NodeTcpConfigBuilder, NoneAuthenticator, RoundRobinBalancer};
use cdrs_core::frame::{Flag, Frame, Opcode, ProtocolVersion, StreamIdAllocator, Version};
use cdrs_core::pool::{
    connect_begin, connect_step, ConnectAction, ConnectEvent, ConnectState, LeaseDecision,
    NodePool, PoolConfig, PoolEntry,
};
use cdrs_core::query::{BodyReqQuery, Consistency, QueryFlags, QueryValues, Value};
use cdrs_core::response::{
    AdditionalErrorInfo, BodyResSupported, CDRSError, ChangeSchemeOptions, ChangeType, ResponseBody,
    ServerEvent, Target,
};
use cdrs_core::router::{ResponseRouter, RouteAction};
use cdrs_core::types::CBytes;

fn cstring_bytes_of(s: &str) -> Vec<u8> {
    let mut v = vec![0u8, s.len() as u8];
    v.extend_from_slice(s.as_bytes());
    v
}

#[test]
fn test_query_frame_v4_wire_shape() {
    // A QUERY frame (v4) for `SELECT * FROM t`, consistency ONE, no
    // values: header 04 00 ss ss 07 LL LL LL LL, then the long string,
    // the consistency short 00 01, and the flag byte 00.
    let mut alloc = StreamIdAllocator::new();
    let f = Frame::new_req_query(
        "SELECT * FROM t".to_string(),
        Consistency::One,
        None,
        None,
        None,
        None,
        None,
        None,
        vec![],
        &mut alloc,
    );
    let bytes = f.as_bytes(ProtocolVersion::V4);
    let query = "SELECT * FROM t".as_bytes();
    let body_len = 4 + query.len() + 2 + 1;
    let mut expected = vec![0x04u8, 0x00, 0x00, 0x00, 0x07];
    expected.extend_from_slice(&(body_len as u32).to_be_bytes());
    expected.extend_from_slice(&(query.len() as u32).to_be_bytes());
    expected.extend_from_slice(query);
    expected.extend_from_slice(&[0x00, 0x01, 0x00]);
    assert_eq!(bytes, expected);
}

#[test]
fn test_query_flags_derived_from_options() {
    let body = BodyReqQuery::new(
        "SELECT * FROM t WHERE k = ?".to_string(),
        Consistency::Quorum,
        Some(QueryValues::SimpleValues(vec![Value::Normal(vec![1])])),
        None,
        Some(100),
        None,
        None,
        Some(42),
    );
    assert_eq!(
        body.query_params.flags,
        vec![
            QueryFlags::Value,
            QueryFlags::PageSize,
            QueryFlags::WithDefaultTimestamp
        ]
    );
}

#[test]
fn test_value_encodings() {
    assert_eq!(Value::Normal(vec![5, 6]).as_bytes(), vec![0, 0, 0, 2, 5, 6]);
    assert_eq!(Value::Null.as_bytes(), vec![0xFF, 0xFF, 0xFF, 0xFF]);
    assert_eq!(Value::NotSet.as_bytes(), vec![0xFF, 0xFF, 0xFF, 0xFE]);
}

#[test]
fn test_batch_body_wire_shape() {
    let batch = BodyReqBatch {
        batch_type: BatchType::Logged,
        queries: vec![BatchQuery {
            is_prepared: false,
            subject: BatchQuerySubj::QueryString(cdrs_core::types::CStringLong::new(
                "Q".to_string(),
            )),
            values: QueryValues::SimpleValues(vec![]),
        }],
        consistency: Consistency::One,
        query_flags: vec![],
        serial_consistency: None,
        timestamp: None,
    };
    let bytes = batch.as_bytes();
    // kind 0, one query, kind byte 0, long string "Q", zero values,
    // consistency ONE, empty flag byte
    assert_eq!(
        bytes,
        vec![0, 0, 1, 0, 0, 0, 0, 1, 0x51, 0, 0, 0, 1, 0]
    );
    assert_eq!(BatchType::from_byte(2).as_byte(), 2);
}

#[test]
fn test_ready_completes_connect_and_supported_decodes() {
    // A READY response to STARTUP completes connect successfully.
    let (state, action) = connect_begin();
    assert_eq!(state, ConnectState::AwaitStartupReply);
    assert_eq!(action, ConnectAction::SendStartup);
    let memo: Option<String> = None;
    let (state, action) = connect_step(state, ConnectEvent::Ready, &memo);
    assert_eq!(state, ConnectState::Connected);
    assert_eq!(action, ConnectAction::Done);

    // A subsequent OPTIONS returns SUPPORTED, decoding to a multimap
    // holding the CQL_VERSION and COMPRESSION keys.
    let mut body = vec![0u8, 2];
    body.extend_from_slice(&cstring_bytes_of("CQL_VERSION"));
    body.extend_from_slice(&[0, 1]);
    body.extend_from_slice(&cstring_bytes_of("3.0.0"));
    body.extend_from_slice(&cstring_bytes_of("COMPRESSION"));
    body.extend_from_slice(&[0, 2]);
    body.extend_from_slice(&cstring_bytes_of("lz4"));
    body.extend_from_slice(&cstring_bytes_of("snappy"));
    let mut pos: usize = 0;
    let supported = BodyResSupported::from_cursor(&body, &mut pos).unwrap();
    assert_eq!(supported.data.len(), 2);
    assert_eq!(supported.data[0].0, "CQL_VERSION");
    assert_eq!(supported.data[0].1, vec!["3.0.0".to_string()]);
    assert_eq!(supported.data[1].0, "COMPRESSION");
    assert_eq!(
        supported.data[1].1,
        vec!["lz4".to_string(), "snappy".to_string()]
    );
}

#[test]
fn test_schema_change_event_reaches_subscriber() {
    // Register for SCHEMA_CHANGE events and apply CREATE TABLE: the
    // event stream yields exactly one created-table schema change.
    let mut body = cstring_bytes_of("SCHEMA_CHANGE");
    body.extend_from_slice(&cstring_bytes_of("CREATED"));
    body.extend_from_slice(&cstring_bytes_of("TABLE"));
    body.extend_from_slice(&cstring_bytes_of("ks"));
    body.extend_from_slice(&cstring_bytes_of("t"));
    let mut frame_bytes = vec![0x84u8, 0x00, 0xFF, 0xFF, 0x0C];
    frame_bytes.extend_from_slice(&(body.len() as u32).to_be_bytes());
    frame_bytes.extend_from_slice(&body);

    let frame = Frame::parse(&frame_bytes, ProtocolVersion::V4).unwrap();
    assert_eq!(frame.stream, -1);
    assert_eq!(frame.opcode, Opcode::Event);

    let mut router = ResponseRouter::new();
    router.subscribe(71);
    router.subscribe(72);
    match router.route(frame.stream, frame.opcode) {
        RouteAction::Publish(subs) => assert_eq!(subs, vec![71, 72]),
        _ => panic!("an event must reach the subscribers"),
    }

    let events: Vec<ServerEvent> = vec![frame
        .get_body()
        .unwrap()
        .into_server_event()
        .unwrap()
        .event];
    assert_eq!(events.len(), 1);
    match &events[0] {
        ServerEvent::SchemaChange(sc) => {
            assert_eq!(sc.change_type, ChangeType::Created);
            assert_eq!(sc.target, Target::Table);
            match &sc.options {
                ChangeSchemeOptions::TableType(ks, name) => {
                    assert_eq!(ks, "ks");
                    assert_eq!(name, "t");
                }
                _ => panic!("a table change names its keyspace and table"),
            }
        }
        _ => panic!("expected a schema change"),
    }
}

#[test]
fn test_router_delivers_to_correct_callers_in_any_order() {
    let mut router = ResponseRouter::new();
    assert!(router.register(1, 100));
    assert!(router.register(2, 200));
    // the same id cannot be claimed twice while in flight
    assert!(!router.register(1, 300));
    // responses arrive in the opposite order of the requests
    match router.route(2, Opcode::Result) {
        RouteAction::Deliver(t) => assert_eq!(t, 200),
        _ => panic!("caller two must get its response"),
    }
    match router.route(1, Opcode::Result) {
        RouteAction::Deliver(t) => assert_eq!(t, 100),
        _ => panic!("caller one must get its response"),
    }
}

#[test]
fn test_router_cancel_orphans_and_frees_id() {
    let mut router = ResponseRouter::new();
    assert!(router.register(5, 500));
    assert!(router.cancel(5));
    // the late response is dropped, delivered to no one
    match router.route(5, Opcode::Result) {
        RouteAction::DropLate => {}
        _ => panic!("a canceled operation's late response must be dropped"),
    }
    // and the id is reusable afterwards
    assert!(router.register(5, 501));
}

#[test]
fn test_router_negative_stream_without_event_is_error() {
    let mut router = ResponseRouter::new();
    match router.route(-1, Opcode::Result) {
        RouteAction::ProtocolError => {}
        _ => panic!("a negative stream id must carry an event"),
    }
}

#[test]
fn test_router_fail_all_drains_waiters() {
    let mut router = ResponseRouter::new();
    assert!(router.register(1, 11));
    assert!(router.register(2, 22));
    assert!(router.cancel(2));
    assert!(router.register(3, 33));
    let tokens = router.fail_all();
    assert_eq!(tokens, vec![11, 33]);
    // a closed router accepts no new waiters
    assert!(!router.register(9, 99));
}

#[test]
fn test_pool_never_exceeds_max_size() {
    let config = PoolConfig {
        max_size: 2,
        min_idle: None,
        max_lifetime: None,
        idle_timeout: Some(1000),
        connection_timeout: 30000,
    };
    let mut pool = NodePool::new(config);
    assert_eq!(pool.lease(), LeaseDecision::Open);
    assert_eq!(pool.lease(), LeaseDecision::Open);
    // the pool is at its bound: the third lease must wait
    assert_eq!(pool.lease(), LeaseDecision::Wait);
}

#[test]
fn test_pool_drops_broken_and_reaps_idle() {
    let config = PoolConfig {
        max_size: 2,
        min_idle: None,
        max_lifetime: None,
        idle_timeout: Some(1000),
        connection_timeout: 30000,
    };
    let mut pool = NodePool::new(config);
    assert_eq!(pool.lease(), LeaseDecision::Open);
    let entry = PoolEntry {
        id: 1,
        created_at: 0,
        idle_since: 0,
    };
    // a broken entry detected on return is dropped, never re-issued
    assert!(!pool.give_back(entry, 10, true));
    assert_eq!(pool.lease(), LeaseDecision::Open);
    // a healthy entry is parked idle and comes back on the next lease
    assert!(pool.give_back(entry, 10, false));
    match pool.lease() {
        LeaseDecision::Reuse(e) => assert_eq!(e.id, 1),
        _ => panic!("an idle entry must be reused"),
    }
    // an entry idle past idle_timeout plus the grace is reaped
    assert!(pool.give_back(entry, 10, false));
    let closed = pool.reap(10 + 1000 + 30000 + 1);
    assert_eq!(closed.len(), 1);
    match pool.lease() {
        LeaseDecision::Open => {}
        _ => panic!("the reaped entry must not be leased again"),
    }
}

#[test]
fn test_keyspace_memo_reaches_new_connections() {
    let config = PoolConfig {
        max_size: 4,
        min_idle: None,
        max_lifetime: None,
        idle_timeout: None,
        connection_timeout: 30000,
    };
    let mut pool = NodePool::new(config);
    // after USE k on any connection of the pool...
    pool.set_keyspace("k".to_string());
    let memo = pool.current_keyspace().cloned();
    // ...every new connection's startup catches up with k before it may
    // enter the pool
    let (state, _) = connect_begin();
    let (state, action) = connect_step(state, ConnectEvent::Ready, &memo);
    assert_eq!(state, ConnectState::SettingKeyspace);
    assert_eq!(action, ConnectAction::SendUseKeyspace("k".to_string()));
    let (state, action) = connect_step(state, ConnectEvent::SetKeyspaceOk, &memo);
    assert_eq!(state, ConnectState::Connected);
    assert_eq!(action, ConnectAction::Done);
}

#[test]
fn test_connect_aborts_on_error() {
    let memo: Option<String> = None;
    let (state, _) = connect_begin();
    let (state, action) = connect_step(state, ConnectEvent::ServerError, &memo);
    assert_eq!(state, ConnectState::Failed);
    assert_eq!(action, ConnectAction::Abort);
}

#[test]
fn test_connect_runs_authentication() {
    let memo: Option<String> = None;
    let (state, _) = connect_begin();
    let (state, action) = connect_step(state, ConnectEvent::Authenticate, &memo);
    assert_eq!(state, ConnectState::Challenging);
    assert_eq!(action, ConnectAction::SendAuthResponse);
    let (state, action) = connect_step(state, ConnectEvent::AuthChallenge, &memo);
    assert_eq!(state, ConnectState::Challenging);
    assert_eq!(action, ConnectAction::SendAuthResponse);
    let (state, action) = connect_step(state, ConnectEvent::AuthSuccess, &memo);
    assert_eq!(state, ConnectState::Connected);
    assert_eq!(action, ConnectAction::Done);
}

#[test]
fn test_error_body_decodes_unavailable() {
    // code 0x1000, message "boom", consistency QUORUM, required 3, alive 1
    let mut body = vec![0u8, 0, 0x10, 0];
    body.extend_from_slice(&cstring_bytes_of("boom"));
    body.extend_from_slice(&[0, 4]);
    body.extend_from_slice(&[0, 0, 0, 3]);
    body.extend_from_slice(&[0, 0, 0, 1]);
    let mut pos: usize = 0;
    let err = CDRSError::from_cursor(&body, &mut pos).unwrap();
    assert_eq!(err.error_code, 0x1000);
    assert_eq!(err.message, "boom");
    match err.additional_info {
        AdditionalErrorInfo::Unavailable(c, required, alive) => {
            assert_eq!(c, Consistency::Quorum);
            assert_eq!(required, 3);
            assert_eq!(alive, 1);
        }
        _ => panic!("code 0x1000 carries unavailable extras"),
    }
}

#[test]
fn test_error_body_rejects_unknown_code() {
    let mut body = vec![0u8, 0, 0x77, 0];
    body.extend_from_slice(&cstring_bytes_of("?"));
    let mut pos: usize = 0;
    assert!(CDRSError::from_cursor(&body, &mut pos).is_err());
}

#[test]
fn test_rows_result_decodes() {
    // kind Rows, global table spec, one int column, one row with the
    // value 5
    let mut body = vec![0u8, 0, 0, 2];
    body.extend_from_slice(&[0, 0, 0, 1]); // metadata flags: global spec
    body.extend_from_slice(&[0, 0, 0, 1]); // one column
    body.extend_from_slice(&cstring_bytes_of("ks"));
    body.extend_from_slice(&cstring_bytes_of("t"));
    body.extend_from_slice(&cstring_bytes_of("c"));
    body.extend_from_slice(&[0x00, 0x09]); // column type: int
    body.extend_from_slice(&[0, 0, 0, 1]); // one row
    body.extend_from_slice(&[0, 0, 0, 4, 0, 0, 0, 5]); // one cell
    let rb = ResponseBody::from(&body, &Opcode::Result).unwrap();
    let rows = rb.into_rows().unwrap();
    assert_eq!(rows.len(), 1);
    assert_eq!(
        rows[0].row_content[0].clone().into_plain().unwrap(),
        vec![0, 0, 0, 5]
    );
}

#[test]
fn test_auth_bodies_decode() {
    let mut body = cstring_bytes_of("org.apache.cassandra.auth.PasswordAuthenticator");
    let rb = ResponseBody::from(&body, &Opcode::Authenticate).unwrap();
    assert_eq!(
        rb.get_authenticator().unwrap(),
        "org.apache.cassandra.auth.PasswordAuthenticator"
    );
    body = vec![0, 0, 0, 2, 9, 9];
    let rb = ResponseBody::from(&body, &Opcode::AuthChallenge).unwrap();
    match rb {
        ResponseBody::AuthChallenge(c) => {
            assert_eq!(c.data.into_plain().unwrap(), vec![9, 9])
        }
        _ => panic!("expected a challenge"),
    }
}

#[test]
fn test_set_keyspace_result_decodes() {
    let mut body = vec![0u8, 0, 0, 3];
    body.extend_from_slice(&cstring_bytes_of("ks"));
    let rb = ResponseBody::from(&body, &Opcode::Result).unwrap();
    let sk = rb.into_set_keyspace().unwrap();
    assert_eq!(sk.body.as_str(), "ks");
}

#[test]
fn test_node_config_builder_defaults_and_caps() {
    let builder = NodeTcpConfigBuilder::new("127.0.0.1:9042".to_string(), NoneAuthenticator {});
    let config = builder
        .min_idle(Some(50))
        .max_size(4)
        .max_lifetime(Some(60000))
        .idle_timeout(Some(10000))
        .build();
    assert_eq!(config.addr, "127.0.0.1:9042");
    assert_eq!(config.max_size, 4);
    // min_idle is capped by max_size at build
    assert_eq!(config.min_idle, Some(4));
    assert_eq!(config.max_lifetime, Some(60000));
    assert_eq!(config.idle_timeout, Some(10000));
    assert_eq!(config.connection_timeout, 30000);
    let defaulted =
        NodeTcpConfigBuilder::new("n".to_string(), NoneAuthenticator {}).build();
    assert_eq!(defaulted.max_size, 10);
    assert_eq!(defaulted.min_idle, None);
    assert_eq!(defaulted.connection_timeout, 30000);
}

#[test]
fn test_round_robin_cycles_over_nodes() {
    let mut lb = RoundRobinBalancer::new();
    assert_eq!(lb.next(3), 0);
    assert_eq!(lb.next(3), 1);
    assert_eq!(lb.next(3), 2);
    assert_eq!(lb.next(3), 0);
}

#[test]
fn test_startup_body_wire_shape() {
    let body = cdrs_core::session::body_req_startup("3.0.0", None);
    let mut expected = vec![0u8, 1];
    expected.extend_from_slice(&cstring_bytes_of("CQL_VERSION"));
    expected.extend_from_slice(&cstring_bytes_of("3.0.0"));
    assert_eq!(body, expected);
    let body = cdrs_core::session::body_req_startup("3.0.0", Some("lz4"));
    let mut expected = vec![0u8, 2];
    expected.extend_from_slice(&cstring_bytes_of("CQL_VERSION"));
    expected.extend_from_slice(&cstring_bytes_of("3.0.0"));
    expected.extend_from_slice(&cstring_bytes_of("COMPRESSION"));
    expected.extend_from_slice(&cstring_bytes_of("lz4"));
    assert_eq!(body, expected);
}

#[test]
fn test_register_frame_body() {
    let mut alloc = StreamIdAllocator::new();
    let f = Frame::new_req_register(vec!["SCHEMA_CHANGE".to_string()], &mut alloc);
    assert_eq!(f.opcode, Opcode::Register);
    assert_eq!(f.version, Version::Request);
    let mut expected = vec![0u8, 1];
    expected.extend_from_slice(&cstring_bytes_of("SCHEMA_CHANGE"));
    assert_eq!(f.body, expected);
}

#[test]
fn test_prepare_flags_canonical() {
    assert_eq!(cdrs_core::query::prepare_flags(false, false), vec![]);
    assert_eq!(
        cdrs_core::query::prepare_flags(true, false),
        vec![Flag::Tracing]
    );
    assert_eq!(
        cdrs_core::query::prepare_flags(true, true),
        vec![Flag::Tracing, Flag::Warning]
    );
}

#[test]
fn test_auth_response_frame_carries_token() {
    let mut alloc = StreamIdAllocator::new();
    let f = Frame::new_req_auth_response(CBytes::new(vec![1, 2]), &mut alloc);
    assert_eq!(f.opcode, Opcode::AuthResponse);
    assert_eq!(f.body, vec![0, 0, 0, 2, 1, 2]);
}

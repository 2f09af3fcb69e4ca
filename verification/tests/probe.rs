use ztunnel::probe::{
    default_timeout_seconds, forward_headers, grpc_status, http_status, idle_connections,
    probe_host, redirect, tcp_status, user_agent, validate_app_kube_prober, GRPCAction,
    HTTPGetAction, IntOrString, ProbeStep, Prober, Redirect, Server, TCPSocketAction,
};

const LIVEZ: &str = "/app-health/main/livez";

fn text(s: &str) -> String {
    s.to_string()
}

fn none() -> Prober {
    Prober { http_get: None, tcp_socket: None, grpc: None, timeout_seconds: 1 }
}

fn http(port: IntOrString) -> Prober {
    Prober {
        http_get: Some(HTTPGetAction {
            path: text("/health"),
            port,
            host: None,
            scheme: None,
            http_headers: None,
        }),
        ..none()
    }
}

fn server(probers: Vec<(&str, Prober)>) -> Server {
    let probers = probers.into_iter().map(|(path, prober)| (text(path), prober)).collect();
    Server::new(Some(probers), 15020, text("127.0.0.6")).unwrap()
}

#[test]
fn probers_are_validated() {
    assert_eq!(validate_app_kube_prober(LIVEZ, &http(IntOrString::Int(8080))), Ok(()));
    for path in ["/app-health/main/other", "/app-health//livez", "/app-health/a/b/livez", "livez"] {
        assert!(validate_app_kube_prober(path, &http(IntOrString::Int(8080))).is_err());
    }
    assert!(validate_app_kube_prober(LIVEZ, &none()).is_err());
    let both = Prober {
        tcp_socket: Some(TCPSocketAction { port: IntOrString::Int(1), host: None }),
        ..http(IntOrString::Int(8080))
    };
    assert!(validate_app_kube_prober(LIVEZ, &both).is_err());
    assert!(validate_app_kube_prober(LIVEZ, &http(IntOrString::String(text("http")))).is_err());
    let bad = vec![(text("bad"), http(IntOrString::Int(8080)))];
    assert!(Server::new(Some(bad), 15020, text("127.0.0.6")).is_err());
    assert!(Server::new(None, 15020, text("127.0.0.6")).is_err());
    assert_eq!(default_timeout_seconds(), 1);
    assert_eq!(IntOrString::Int(7).int_value(), 7);
    assert_eq!(IntOrString::String(text("x")).int_value(), 0);
}

#[test]
fn probes_go_to_the_application() {
    let server = server(vec![
        (LIVEZ, http(IntOrString::Int(8080))),
        (
            "/app-health/main/readyz",
            Prober {
                tcp_socket: Some(TCPSocketAction { port: IntOrString::Int(9090), host: None }),
                ..none()
            },
        ),
        (
            "/app-health/main/startupz",
            Prober {
                grpc: Some(GRPCAction { port: 7070, service: Some(text("svc")) }),
                timeout_seconds: 3,
                ..none()
            },
        ),
    ]);
    match server.handle_app_probe(LIVEZ) {
        ProbeStep::HttpGet { url, port, timeout_seconds } => {
            assert_eq!(url, "http://127.0.0.6:8080/health");
            assert_eq!(port, 8080);
            assert_eq!(timeout_seconds, 1);
        }
        other => panic!("unexpected {other:?}"),
    }
    assert_eq!(
        server.handle_app_probe("app-health/main/readyz"),
        ProbeStep::TcpConnect { port: 9090, timeout_seconds: 1 }
    );
    assert_eq!(
        server.handle_app_probe("/app-health/main/startupz"),
        ProbeStep::GrpcCheck {
            address: text("http://127.0.0.6:7070"),
            service: text("svc"),
            timeout_seconds: 3,
        }
    );
    assert_eq!(
        server.handle_app_probe("/app-health/other/livez"),
        ProbeStep::Answer(
            400,
            text("app prober config does not exist for /app-health/other/livez")
        )
    );
}

#[test]
fn answers_become_statuses() {
    assert_eq!(http_status(Some(204)), 204);
    assert_eq!(http_status(Some(404)), 404);
    assert_eq!(http_status(None), 500);
    assert_eq!(tcp_status(true), 200);
    assert_eq!(tcp_status(false), 500);
    assert_eq!(grpc_status(Some(1)), 200);
    assert_eq!(grpc_status(Some(2)), 500);
    assert_eq!(grpc_status(None), 500);
}

#[test]
fn redirects_stay_on_the_host() {
    assert_eq!(redirect(0, true), Redirect::Follow);
    assert_eq!(redirect(0, false), Redirect::Stop);
    assert_eq!(redirect(10, true), Redirect::Error);
    assert_eq!(redirect(9, true), Redirect::Follow);
    assert_eq!(idle_connections(false), 0);
    assert!(idle_connections(true) > 0);
}

#[test]
fn the_host_names_the_application() {
    assert_eq!(probe_host("10.0.0.1:15020", 15020, "127.0.0.6", 8080), "10.0.0.1:8080");
    let server = server(vec![(LIVEZ, http(IntOrString::Int(8080)))]);
    assert_eq!(server.host_header("10.0.0.1:15020", 8080), "10.0.0.1:8080");
}

#[test]
fn user_agents_have_a_default() {
    assert_eq!(user_agent(Some(text("curl"))), "curl");
    assert_eq!(user_agent(None), "kube-probe/rust");
}

#[test]
fn the_host_is_not_forwarded() {
    let headers = vec![
        (text("host"), b"a".to_vec()),
        (text("x-a"), b"1".to_vec()),
        (text("x-a"), b"2".to_vec()),
    ];
    let forwarded = forward_headers(&headers);
    assert!(forwarded.iter().all(|(name, _)| name != "host"));
    assert!(forwarded.iter().any(|(name, _)| name == "x-a"));
}

use irium_poawx::poawx_miner_client::rpc_status_error;

fn text(v: Vec<char>) -> String {
    v.into_iter().collect()
}

#[test]
fn rpc_status_texts_point_at_the_token_for_401_and_403() {
    assert_eq!(
        text(rpc_status_error("template failed", 401, Some("Unauthorized"))),
        "template failed: HTTP 401 Unauthorized (check IRIUM_RPC_TOKEN)"
    );
    assert_eq!(
        text(rpc_status_error("post admission", 403, Some("Forbidden"))),
        "post admission: HTTP 403 Forbidden (check IRIUM_RPC_TOKEN)"
    );
    assert_eq!(text(rpc_status_error("get dominance", 404, Some("Not Found"))), "get dominance: HTTP 404 Not Found");
    assert_eq!(text(rpc_status_error("x", 7, None)), "x: HTTP 7");
    assert_eq!(text(rpc_status_error("", 65535, None)), ": HTTP 65535");
    assert_eq!(text(rpc_status_error("y", 500, None)), "y: HTTP 500");
}

use dotnet_api_index::merge::{enrich_endpoint, merge_endpoint, EndpointMap};
use dotnet_api_index::model::EndpointRecord;
use dotnet_api_index::project::merge_endpoints;
use dotnet_api_index::routes::{
    canonicalize_route_for_merge, combine_routes, endpoint_merge_key, normalize_route_parameter,
    resolve_group_prefix_expr, trim_route_slashes, RouteGroups,
};

fn endpoint(id: &str, method: &str, route: &str, style: &str) -> EndpointRecord {
    EndpointRecord {
        id: id.to_string(),
        project_id: "p".to_string(),
        method: method.to_string(),
        route: route.to_string(),
        source_path: "A.cs".to_string(),
        line: 1,
        style: style.to_string(),
        symbol: None,
        requires_auth: false,
        allows_anonymous: false,
        auth_schemes: Vec::new(),
    }
}

fn texts(list: &[&str]) -> Vec<String> {
    list.iter().map(|s| s.to_string()).collect()
}

#[test]
fn merge_key_normalizes_route_constraints_and_prefers_oas() {
    let mut map = EndpointMap::new();

    merge_endpoint(
        &mut map,
        EndpointRecord {
            id: "code".to_string(),
            project_id: "p".to_string(),
            method: "GET".to_string(),
            route: "/v1/draws/{drawNumber:long}".to_string(),
            source_path: "Endpoints/DrawsEndpoints.cs".to_string(),
            line: 10,
            style: "minimal-api".to_string(),
            symbol: None,
            requires_auth: true,
            allows_anonymous: false,
            auth_schemes: vec!["workload".to_string()],
        },
    );

    merge_endpoint(
        &mut map,
        EndpointRecord {
            id: "oas".to_string(),
            project_id: "p".to_string(),
            method: "GET".to_string(),
            route: "/v1/draws/{drawNumber}".to_string(),
            source_path: "openapi/openapi.json".to_string(),
            line: 1,
            style: "oas".to_string(),
            symbol: Some("GetDraw".to_string()),
            requires_auth: false,
            allows_anonymous: false,
            auth_schemes: Vec::new(),
        },
    );

    let endpoints = map.into_listing();
    assert_eq!(endpoints.len(), 1);
    let endpoint = endpoints.first().unwrap();
    assert_eq!(endpoint.style, "oas");
    assert_eq!(endpoint.route, "/v1/draws/{drawNumber}");
    assert!(endpoint.requires_auth);
    assert!(endpoint.auth_schemes.iter().any(|scheme| scheme == "workload"));
    assert_eq!(endpoint.symbol.as_deref(), Some("GetDraw"));
}

#[test]
fn document_is_kept_when_it_comes_first() {
    let mut map = EndpointMap::new();
    merge_endpoint(&mut map, endpoint("doc", "GET", "/a", "oas"));
    let mut code = endpoint("code", "get", "a/", "controller");
    code.symbol = Some("C.A".to_string());
    merge_endpoint(&mut map, code);
    let list = map.into_listing();
    assert_eq!(list.len(), 1);
    assert_eq!(list[0].id, "doc");
    assert_eq!(list[0].method, "GET");
    assert_eq!(list[0].route, "/a");
    assert_eq!(list[0].symbol.as_deref(), Some("C.A"));
}

#[test]
fn the_earlier_of_two_sources_is_kept() {
    let mut map = EndpointMap::new();
    merge_endpoint(&mut map, endpoint("first", "GET", "/a", "controller"));
    merge_endpoint(&mut map, endpoint("second", "GET", "/a", "minimal-api"));
    let list = map.into_listing();
    assert_eq!(list.len(), 1);
    assert_eq!(list[0].id, "first");
    assert_eq!(list[0].style, "controller");
}

#[test]
fn enriching_fills_only_what_is_missing() {
    let mut target = endpoint("t", "GET", "/a", "oas");
    target.source_path = String::new();
    target.line = 0;
    target.auth_schemes = texts(&["x", "y"]);
    let mut other = endpoint("o", "POST", "/b", "controller");
    other.source_path = "B.cs".to_string();
    other.line = 7;
    other.symbol = Some("S".to_string());
    other.allows_anonymous = true;
    other.auth_schemes = texts(&["y", "z", "z"]);
    enrich_endpoint(&mut target, &other);
    assert_eq!(target.id, "t");
    assert_eq!(target.method, "GET");
    assert_eq!(target.source_path, "B.cs");
    assert_eq!(target.line, 7);
    assert_eq!(target.symbol.as_deref(), Some("S"));
    assert!(target.allows_anonymous);
    assert!(!target.requires_auth);
    assert_eq!(target.auth_schemes, texts(&["x", "y", "z"]));
    let mut again = endpoint("o", "POST", "/b", "controller");
    again.source_path = "C.cs".to_string();
    again.line = 9;
    again.symbol = Some("T".to_string());
    enrich_endpoint(&mut target, &again);
    assert_eq!(target.source_path, "B.cs");
    assert_eq!(target.line, 7);
    assert_eq!(target.symbol.as_deref(), Some("S"));
}

#[test]
fn enriching_twice_is_enriching_once() {
    let mut other = endpoint("o", "GET", "/a", "controller");
    other.requires_auth = true;
    other.auth_schemes = texts(&["k", "l"]);
    let mut target = endpoint("t", "GET", "/a", "oas");
    enrich_endpoint(&mut target, &other);
    let once = target.auth_schemes.clone();
    enrich_endpoint(&mut target, &other);
    assert_eq!(target.auth_schemes, once);
    assert_eq!(once, texts(&["k", "l"]));
    assert!(target.requires_auth);
}

#[test]
fn listings_go_by_path_line_method_and_route() {
    let mut map = EndpointMap::new();
    let mut list = Vec::new();
    for (id, path, line, method, route) in [
        ("6", "b.cs", 1, "GET", "/z"),
        ("3", "a.cs", 9, "POST", "/b"),
        ("2", "a.cs", 9, "GET", "/c"),
        ("1", "a.cs", 2, "PUT", "/y"),
        ("5", "a.cs", 10, "DELETE", "/x"),
        ("4", "a.cs", 9, "POST", "/bb"),
        ("7", "\u{e9}.cs", 1, "GET", "/w"),
        ("0", "B.cs", 5, "GET", "/v"),
    ] {
        let mut e = endpoint(id, method, route, "controller");
        e.source_path = path.to_string();
        e.line = line;
        list.push(e);
    }
    merge_endpoints(&mut map, list);
    assert!(!map.is_empty());
    let ids: Vec<String> = map.into_listing().into_iter().map(|e| e.id).collect();
    assert_eq!(ids, texts(&["0", "1", "2", "3", "4", "5", "6", "7"]));
}

#[test]
fn listings_have_each_merge_key_once() {
    let mut map = EndpointMap::new();
    assert!(map.is_empty());
    let mut list = Vec::new();
    for (method, route) in [("GET", "/a/{id}"), ("get", "a/{id:int}"), ("Get", "/a/{ id? }/"), ("POST", "/a/{id}")] {
        list.push(endpoint("e", method, route, "controller"));
    }
    merge_endpoints(&mut map, list);
    assert_eq!(map.into_listing().len(), 2);
}

#[test]
fn merge_keys_ignore_what_does_not_name_a_route() {
    let key = endpoint_merge_key("GET", "/items/{id}/parts");
    assert_eq!(key, ("GET".to_string(), "/items/{id}/parts".to_string()));
    for route in [
        "/items/{id:int}/parts",
        "/items/{id:int:min(1)}/parts",
        "/items/{id=5}/parts",
        "/items/{id?}/parts",
        "/items/{id:int?}/parts",
        "/items/{ id }/parts",
        "items/{id}/parts/",
        " //items/{id}/parts// ",
    ] {
        assert_eq!(endpoint_merge_key("get", route), key, "{}", route);
    }
    assert_ne!(endpoint_merge_key("POST", "/items/{id}/parts"), key);
    assert_ne!(endpoint_merge_key("GET", "/items/{name}/parts"), key);
    assert_ne!(endpoint_merge_key("GET", "/items/id/parts"), key);
}

#[test]
fn a_constraint_behind_blanks_and_an_optional_mark_matters() {
    assert_eq!(canonicalize_route_for_merge("{id? :int}"), "/{id?}");
    assert_eq!(canonicalize_route_for_merge("{id? }"), "/{id}");
}

#[test]
fn open_braces_take_in_the_rest() {
    assert_eq!(canonicalize_route_for_merge("/a/{id:int/b"), "/a/{id");
    assert_eq!(canonicalize_route_for_merge("/a/{}"), "/a/{}");
    assert_eq!(canonicalize_route_for_merge("/a}b{c}"), "/a}b{c}");
    assert_eq!(canonicalize_route_for_merge("{{a}}"), "/{{a}}");
}

#[test]
fn empty_routes_are_the_root() {
    assert_eq!(canonicalize_route_for_merge(""), "/");
    assert_eq!(canonicalize_route_for_merge(" // "), "/");
    assert_eq!(canonicalize_route_for_merge("/Caf\u{e9}"), "/Caf\u{e9}");
}

#[test]
fn parameters_are_reduced_to_their_names() {
    assert_eq!(normalize_route_parameter(" id:int "), "id");
    assert_eq!(normalize_route_parameter("id=1:x"), "id");
    assert_eq!(normalize_route_parameter("id??"), "id");
    assert_eq!(normalize_route_parameter("*slug"), "*slug");
    assert_eq!(normalize_route_parameter(""), "");
}

#[test]
fn routes_combine() {
    assert_eq!(combine_routes("", "", None, None, None), "/");
    assert_eq!(combine_routes("/api/", "", None, None, None), "/api");
    assert_eq!(combine_routes("", "x/", None, None, None), "/x");
    assert_eq!(combine_routes(" /api/ ", "//x//y", None, None, None), "/api/x//y");
    assert_eq!(
        combine_routes("[area]/[controller]", "[action]/[controller]", Some("Home"), Some("Get"), Some("Admin")),
        "/Admin/Home/Get/Home"
    );
    assert_eq!(combine_routes("[controller]", "[area]", Some("Home"), None, None), "/Home/[area]");
    assert_eq!(trim_route_slashes(" /a/b/ "), "a/b");
    assert_eq!(trim_route_slashes("/ a /"), " a ");
}

#[test]
fn group_prefixes_are_chained() {
    let mut groups = RouteGroups::new();
    assert_eq!(groups.get("v1"), None);
    groups.insert("v1".to_string(), "/old".to_string());
    groups.insert("v1".to_string(), "/v1".to_string());
    groups.insert("other".to_string(), "/o".to_string());
    assert_eq!(groups.get("v1"), Some("/v1".to_string()));
    assert_eq!(resolve_group_prefix_expr("app", &groups), "");
    assert_eq!(resolve_group_prefix_expr(" v1 ", &groups), "/v1");
    assert_eq!(resolve_group_prefix_expr("app.MapGroup(\"/a\").MapGroup(\"b\")", &groups), "/a/b");
    assert_eq!(resolve_group_prefix_expr("v1.MapGroup(\"/users\")", &groups), "/v1/users");
    assert_eq!(resolve_group_prefix_expr("v1.MapGroup(name).X", &groups), "/v1");
    assert_eq!(resolve_group_prefix_expr("f(v1).MapGroup(\"/a\")", &groups), "/a");
}

#[test]
fn every_find_is_listed_and_nothing_else() {
    let finds = [("GET", "/a/{id}", "controller"), ("POST", "/a", "minimal-api"), ("get", "a/{id:int}", "oas")];
    let mut map = EndpointMap::new();
    for (k, (method, route, style)) in finds.iter().enumerate() {
        let mut e = endpoint("e", method, route, style);
        e.auth_schemes = vec![format!("s{}", k)];
        e.requires_auth = k == 0;
        merge_endpoint(&mut map, e);
    }
    let list = map.into_listing();
    assert_eq!(list.len(), 2);
    for (k, (method, route, style)) in finds.iter().enumerate() {
        let key = endpoint_merge_key(method, route);
        let kept = list.iter().find(|e| endpoint_merge_key(&e.method, &e.route) == key).unwrap();
        assert!(kept.auth_schemes.contains(&format!("s{}", k)));
        assert!(*style != "oas" || kept.style == "oas");
        assert!(k != 0 || kept.requires_auth);
    }
}

#[test]
fn combined_routes_have_one_slash_at_their_ends() {
    for (prefix, suffix) in [("//a//", "//"), ("", "///b/"), ("/a/", "/b/"), ("/", "/")] {
        let route = combine_routes(prefix, suffix, None, None, None);
        assert!(route.starts_with('/') && !route.starts_with("//"), "{}", route);
        assert!(route == "/" || !route.ends_with('/'), "{}", route);
    }
}

use dotnet_api_index::attributes::{
    merge_auth_metadata, parse_area_attribute, parse_auth_metadata, parse_first_string_literal,
    parse_http_method_attributes, parse_named_string_list, parse_route_attribute, AuthMetadata,
};
use dotnet_api_index::controllers::{
    advance_scope, controller_of_class, endpoints_of_method, parse_controller_endpoints, Scope,
};
use dotnet_api_index::minimal::{
    assign_group, authorization_schemes_from_line, endpoint_of_line, line_allows_anonymous,
    line_requires_authorization, parse_minimal_api_endpoints, parse_minimal_endpoint_call,
};
use dotnet_api_index::routes::RouteGroups;
use dotnet_api_index::source::line_number_for_offset;

fn texts(list: &[&str]) -> Vec<String> {
    list.iter().map(|s| s.to_string()).collect()
}

#[test]
fn literals_stand_between_quotes() {
    assert_eq!(parse_first_string_literal("x(\"a\", \"b\")"), Some("a".to_string()));
    assert_eq!(parse_first_string_literal("\"\""), Some(String::new()));
    assert_eq!(parse_first_string_literal("x\"a"), None);
    assert_eq!(parse_first_string_literal("x"), None);
}

#[test]
fn named_lists_are_split_at_commas() {
    let attr = "[Authorize(Roles = \"r\", AuthenticationSchemes = \"a, b,,c \")]";
    assert_eq!(parse_named_string_list(attr, "AuthenticationSchemes"), texts(&["a", "b", "c"]));
    assert_eq!(parse_named_string_list(attr, "Policy"), texts(&[]));
    assert_eq!(parse_named_string_list("Policy = x", "Policy"), texts(&[]));
}

#[test]
fn routes_and_areas_come_from_attributes() {
    let attrs = texts(&["[ApiController]", "[Route(\"api/[controller]\")]", "[Route(\"x\")]", "[Area(\"Admin\")]"]);
    assert_eq!(parse_route_attribute(&attrs), Some("api/[controller]".to_string()));
    assert_eq!(parse_area_attribute(&attrs), Some("Admin".to_string()));
    assert_eq!(parse_route_attribute(&texts(&["[Route(x)]", "[Route(\"y\")]"])), None);
}

#[test]
fn http_attributes_give_methods_and_routes() {
    let attrs = texts(&[
        "[HttpGet]", "[HttpPost(\"a\")]", "[HttpPut]", "[HttpDelete(\"{id}\")]", "[HttpPatch]", "[HttpHead]",
        "[Authorize, HttpGet]",
    ]);
    assert_eq!(
        parse_http_method_attributes(&attrs),
        vec![
            ("GET".to_string(), None),
            ("POST".to_string(), Some("a".to_string())),
            ("PUT".to_string(), None),
            ("DELETE".to_string(), Some("{id}".to_string())),
            ("PATCH".to_string(), None),
        ]
    );
}

#[test]
fn access_is_read_in_order() {
    let none = parse_auth_metadata(&[]);
    assert!(!none.requires_auth && !none.allows_anonymous && none.schemes.is_empty());
    let auth = parse_auth_metadata(&texts(&[
        "[Authorize(AuthenticationSchemes = \"a,b\")]",
        "[Authorize(AuthenticationSchemes = \"b,c\")]",
    ]));
    assert!(auth.requires_auth && !auth.allows_anonymous);
    assert_eq!(auth.schemes, texts(&["a", "b", "c"]));
    let open = parse_auth_metadata(&texts(&["[Authorize(AuthenticationSchemes = \"a\")]", "[AllowAnonymous]"]));
    assert!(!open.requires_auth && open.allows_anonymous && open.schemes.is_empty());
    let both = parse_auth_metadata(&texts(&["[AllowAnonymous]", "[Authorize]"]));
    assert!(both.requires_auth && both.allows_anonymous);
}

#[test]
fn access_is_inherited_unless_anonymous() {
    let class = AuthMetadata { requires_auth: true, allows_anonymous: false, schemes: texts(&["a"]) };
    let plain = merge_auth_metadata(&class, &[]);
    assert!(plain.requires_auth);
    assert_eq!(plain.schemes, texts(&["a"]));
    let more = merge_auth_metadata(&class, &texts(&["[Authorize(AuthenticationSchemes = \"b,a\")]"]));
    assert_eq!(more.schemes, texts(&["a", "b"]));
    let open = merge_auth_metadata(&class, &texts(&["[AllowAnonymous]"]));
    assert!(!open.requires_auth && open.allows_anonymous && open.schemes.is_empty());
    let unsaid = merge_auth_metadata(&AuthMetadata::default(), &[]);
    assert!(!unsaid.requires_auth && !unsaid.allows_anonymous && unsaid.schemes.is_empty());
}

#[test]
fn calls_map_endpoints() {
    let call = |line: &str| parse_minimal_endpoint_call(line);
    let part = |a: &str, b: &str, c: &str| Some((a.to_string(), b.to_string(), c.to_string()));
    assert_eq!(call("app.MapGet(\"/x\", () => 1);"), part("app", "Get", "/x"));
    assert_eq!(call(" g .MapPost(\"\")"), part("g", "Post", ""));
    assert_eq!(call("app.MapPut(\"a\");app.MapGet(\"b\")"), part("app.MapPut(\"a\");app", "Get", "b"));
    assert_eq!(call("app.MapDelete(\"a\")"), part("app", "Delete", "a"));
    assert_eq!(call("app.MapPatch(\"a\")"), part("app", "Patch", "a"));
    assert_eq!(call("app.MapGet(Route).MapPost(x)"), None);
    assert_eq!(call("app.MapHead(\"a\")"), None);
}

#[test]
fn calls_say_who_may_call() {
    assert!(line_requires_authorization("x.RequireAuthorization()"));
    assert!(line_requires_authorization("x.RequireAuthorization(\"p\");"));
    assert!(!line_requires_authorization("x.RequireAuthorization"));
    assert!(line_allows_anonymous("x.AllowAnonymous();"));
    assert!(!line_allows_anonymous("AllowAnonymous()"));
    assert_eq!(authorization_schemes_from_line("x.RequireAuthorization(\"p\", \"q\")"), texts(&["p"]));
    assert_eq!(authorization_schemes_from_line("\"p\".RequireAuthorization()"), texts(&[]));
}

#[test]
fn groups_are_assigned() {
    let mut groups = RouteGroups::new();
    let found = |name: Option<&str>, expr: &str| vec![Some("all".to_string()), name.map(str::to_string), Some(expr.to_string())];
    assign_group(&mut groups, &found(Some("g"), "app.MapGroup(\"/g\")"));
    assign_group(&mut groups, &found(Some("h"), "g.MapGroup(\"h\")"));
    assign_group(&mut groups, &found(Some("n"), "app.Other()"));
    assign_group(&mut groups, &found(None, "app.MapGroup(\"/x\")"));
    assert_eq!(groups.get("g"), Some("/g".to_string()));
    assert_eq!(groups.get("h"), Some("/g/h".to_string()));
    assert_eq!(groups.get("n"), None);
    assert_eq!(groups.get(""), None);
    let e = endpoint_of_line("p", "A.cs", "  h.MapPost(\"x\").AllowAnonymous();", 3, &groups).unwrap();
    assert_eq!(e.id, "p:A.cs:3:Post:minimal");
    assert_eq!(e.route, "/g/h/x");
    assert_eq!(e.method, "POST");
    assert!(e.allows_anonymous);
    assert!(endpoint_of_line("p", "A.cs", "// h.MapPost(\"x\")", 3, &groups).is_none());
    assert!(endpoint_of_line("p", "A.cs", "", 3, &groups).is_none());
}

#[test]
fn minimal_apis_are_indexed() {
    let source = "var app = builder.Build();\n\
        \n\
        // app.MapGet(\"/no\", () => 1);\n\
        var api = app.MapGroup(\"/api\");\n\
        var v1 = api.MapGroup(\"v1\").MapGroup(\"/users/\");\n\
        app.MapGet(\"/\", () => \"x\");\n\
        v1.MapDelete(\"{id:int}\", Remove).RequireAuthorization(\"admin\");\n\
        app.MapGroup(\"/x\").MapPut(\"y\", Put).AllowAnonymous();\n";
    let list = parse_minimal_api_endpoints("p", "src/Program.cs", source);
    assert_eq!(list.len(), 3);
    assert_eq!(list[0].id, "p:src/Program.cs:6:Get:minimal");
    assert_eq!(list[0].project_id, "p");
    assert_eq!(list[0].method, "GET");
    assert_eq!(list[0].route, "/");
    assert_eq!(list[0].source_path, "src/Program.cs");
    assert_eq!(list[0].line, 6);
    assert_eq!(list[0].style, "minimal-api");
    assert_eq!(list[0].symbol, None);
    assert!(!list[0].requires_auth && !list[0].allows_anonymous);
    assert_eq!(list[1].route, "/api/v1/users/{id:int}");
    assert_eq!(list[1].method, "DELETE");
    assert!(list[1].requires_auth);
    assert_eq!(list[1].auth_schemes, texts(&["admin"]));
    assert_eq!(list[1].line, 7);
    assert_eq!(list[2].route, "/x/y");
    assert!(list[2].allows_anonymous);
    assert_eq!(list[2].line, 8);
}

const USERS: &str = "namespace X;
[ApiController]
[Route(\"api/[controller]\")]
[Authorize(AuthenticationSchemes = \"jwt\")]
public class UsersController : ControllerBase {
    [HttpGet(\"{id}\")]
    public async Task<User> Find(int id) => null;

    [HttpPost]
    [HttpPut(\"[action]\")]
    [AllowAnonymous]
    public IActionResult Save() { return Ok(); }

    [HttpDelete]

    public void NotListed() {}

    public void Helper() {}
}
[HttpGet]
public void Outside() {}
";

#[test]
fn controllers_are_indexed() {
    let list = parse_controller_endpoints("p", "U.cs", USERS);
    assert_eq!(list.len(), 3);
    assert_eq!(list[0].id, "p:U.cs:7:GET:Find");
    assert_eq!(list[0].method, "GET");
    assert_eq!(list[0].route, "/api/Users/{id}");
    assert_eq!(list[0].line, 7);
    assert_eq!(list[0].style, "controller");
    assert_eq!(list[0].symbol.as_deref(), Some("UsersController.Find"));
    assert!(list[0].requires_auth && !list[0].allows_anonymous);
    assert_eq!(list[0].auth_schemes, texts(&["jwt"]));
    assert_eq!(list[1].method, "POST");
    assert_eq!(list[1].route, "/api/Users");
    assert!(!list[1].requires_auth && list[1].allows_anonymous);
    assert!(list[1].auth_schemes.is_empty());
    assert_eq!(list[2].id, "p:U.cs:12:PUT:Save");
    assert_eq!(list[2].route, "/api/Users/Save");
}

#[test]
fn classes_without_a_mark_are_no_controllers() {
    let source = "public class Users {\n    [HttpGet]\n    public int Get() => 1;\n}\n";
    assert!(parse_controller_endpoints("p", "U.cs", source).is_empty());
    let marked = "[Route(\"u\")]\npublic class Users {\n    [HttpGet]\n    [Route(\"all\")]\n    public int Get() => 1;\n}\n";
    let list = parse_controller_endpoints("p", "U.cs", marked);
    assert_eq!(list.len(), 1);
    assert_eq!(list[0].route, "/u/all");
    assert_eq!(list[0].symbol.as_deref(), Some("Users.Get"));
}

#[test]
fn classes_become_controllers() {
    let c = controller_of_class(&texts(&["[Area(\"Admin\")]", "[Authorize]"]), "HomeController").unwrap();
    assert_eq!(c.name, "HomeController");
    assert_eq!(c.token, "Home");
    assert_eq!(c.area.as_deref(), Some("Admin"));
    assert_eq!(c.base_route, "");
    assert!(c.auth.requires_auth);
    assert!(controller_of_class(&[], "Home").is_none());
    assert_eq!(controller_of_class(&texts(&["[ApiController]"]), "Home").unwrap().token, "Home");
    let list = endpoints_of_method("p", "H.cs", 4, &c, &texts(&["[HttpGet(\"[area]/[action]\")]"]), "Index");
    assert_eq!(list.len(), 1);
    assert_eq!(list[0].id, "p:H.cs:4:GET:Index");
    assert_eq!(list[0].route, "/Admin/Index");
    assert!(endpoints_of_method("p", "H.cs", 4, &c, &[], "Index").is_empty());
}

#[test]
fn scopes_follow_the_lines() {
    let mut scope = Scope { controller: None, indent: None, pending: Vec::new() };
    advance_scope(&mut scope, "  [Route(\"r\")]", &None);
    assert_eq!(scope.pending, texts(&["[Route(\"r\")]"]));
    let class = Some(vec![Some("class A".to_string()), Some("A".to_string())]);
    advance_scope(&mut scope, "  class A", &class);
    assert!(scope.pending.is_empty());
    assert_eq!(scope.indent, Some(2));
    assert_eq!(scope.controller.as_ref().unwrap().base_route, "r");
    advance_scope(&mut scope, "  {", &None);
    assert!(scope.controller.is_some());
    assert_eq!(scope.indent, Some(2));
    advance_scope(&mut scope, "", &None);
    advance_scope(&mut scope, "    int x;", &None);
    assert!(scope.controller.is_some());
    advance_scope(&mut scope, "  }", &None);
    assert!(scope.controller.is_none());
    assert_eq!(scope.indent, None);
    advance_scope(&mut scope, "class B", &Some(vec![None, Some("B".to_string())]));
    assert!(scope.controller.is_none());
}

#[test]
fn both_brace_styles_are_indexed() {
    let method = "    [HttpGet]\n    public int Get() => 1;\n}\n[HttpGet]\npublic int No() => 1;\n";
    for head in ["public class AController\n{\n", "public class AController {\n", "public class AController\n  {\n"] {
        let list = parse_controller_endpoints("p", "A.cs", &format!("{}{}", head, method));
        assert_eq!(list.len(), 1, "{}", head);
        assert_eq!(list[0].symbol.as_deref(), Some("AController.Get"));
    }
}

#[test]
fn controllers_with_a_brace_below_the_class_are_indexed() {
    let source = "[ApiController]\n[Route(\"api/[controller]\")]\npublic class UsersController : ControllerBase\n{\n    [HttpGet]\n    public IActionResult All()\n    {\n    }\n}";
    let list = parse_controller_endpoints("p", "C.cs", source);
    assert_eq!(list.len(), 1);
    assert_eq!(list[0].method, "GET");
    assert_eq!(list[0].route, "/api/Users");
    assert_eq!(list[0].line, 6);
    assert_eq!(list[0].symbol.as_deref(), Some("UsersController.All"));
}

#[test]
fn line_numbers_count_line_feeds() {
    assert_eq!(line_number_for_offset("", 0), 1);
    assert_eq!(line_number_for_offset("a\nb\n", 1), 1);
    assert_eq!(line_number_for_offset("a\nb\n", 2), 2);
    assert_eq!(line_number_for_offset("a\nb\n", 99), 3);
    assert_eq!(line_number_for_offset("\u{e9}\nb", 3), 2);
}

#[test]
fn lines_are_numbered_as_they_stand() {
    let source = "\u{e9}\u{4e2d}\n\napp.MapGet(\"/a\");\nx\napp.MapGet(\"/b\");";
    let lines: Vec<u32> = parse_minimal_api_endpoints("p", "P.cs", source).iter().map(|e| e.line).collect();
    assert_eq!(lines, vec![3, 5]);
}

#[test]
fn carriage_returns_are_not_counted_in_offsets() {
    let source = "x\r\ny\r\n\r\napp.MapGet(\"/a\");\r\napp.MapGet(\"/b\");\r\n";
    let lines: Vec<u32> = parse_minimal_api_endpoints("p", "P.cs", source).iter().map(|e| e.line).collect();
    assert_eq!(lines, vec![2, 4]);
}

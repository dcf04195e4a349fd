use dotnet_api_index::documents::{parse_json, parse_yaml, Json};
use dotnet_api_index::host::{Reply, Request};
use dotnet_api_index::index::{
    api_index, build_project_index, build_solution_index, discover_manifest, entries_of_solution, IndexRun,
};
use dotnet_api_index::model::{ApiIndexDoc, ProjectRecord};
use dotnet_api_index::oas::{endpoints_of_document, parse_oas_endpoints, security_metadata};
use dotnet_api_index::project::{build_project_record, endpoints_of_file, ProjectScan};
use std::collections::BTreeMap;

/// Files by their paths.
struct Host {
    files: BTreeMap<String, String>,
}

impl Host {
    fn new(files: &[(&str, &str)]) -> Host {
        Host { files: files.iter().map(|(p, t)| (p.to_string(), t.to_string())).collect() }
    }

    fn answer(&self, request: Request) -> Reply {
        match request {
            Request::ReadFile(path) => Reply::File(self.files.get(&path).cloned()),
            Request::ListFiles(root) => {
                let prefix = if root.ends_with('/') { root } else { format!("{}/", root) };
                Reply::Files(self.files.keys().filter_map(|p| p.strip_prefix(&prefix)).map(str::to_string).collect())
            }
        }
    }

    fn index(&self, start: IndexRun) -> Option<ApiIndexDoc> {
        let mut run = start;
        while let Some(request) = run.request() {
            let reply = self.answer(request);
            run = run.resume(reply);
        }
        run.into_doc()
    }

    fn record(&self, start: ProjectScan) -> Option<ProjectRecord> {
        let mut scan = start;
        while let Some(request) = scan.request() {
            let reply = self.answer(request);
            scan = scan.resume(reply);
        }
        assert!(scan.is_done());
        scan.into_record()
    }
}

const WEB: &str = "<Project Sdk=\"Microsoft.NET.Sdk.Web\">\n</Project>\n";

const ADDRESSES: &str = "var app = builder.Build();\n\
    var addresses = app.MapGroup(\"/addresses\");\n\
    addresses.MapGet(\"/{id:guid}\", Find);\n\
    addresses.MapPost(\"/\", Add).RequireAuthorization();\n";

fn addressfinder() -> Host {
    let dir = "/Users/aavu/repositories/github.com/github-work.com/addressfinder";
    let solution = "Project(\"{9A}\") = \"AddressFinder.Api\", \"AddressFinder.Api\\AddressFinder.Api.csproj\", \"{1}\"\n\
        EndProject\n\
        Project(\"{9A}\") = \"AddressFinder.Core\", \"AddressFinder.Core\\AddressFinder.Core.csproj\", \"{2}\"\n\
        EndProject\n\
        Project(\"{2150}\") = \"Solution Items\", \"Solution Items\", \"{3}\"\n\
        EndProject\n";
    Host {
        files: [
            ("AddressFinder.sln", solution),
            ("AddressFinder.Api/AddressFinder.Api.csproj", WEB),
            ("AddressFinder.Api/Program.cs", ADDRESSES),
            ("AddressFinder.Api/obj/Generated.cs", "app.MapGet(\"/generated\", X);\n"),
            ("AddressFinder.Core/AddressFinder.Core.csproj", "<Project Sdk=\"Microsoft.NET.Sdk\"></Project>"),
            ("AddressFinder.Core/Core.cs", "class Core {}\n"),
        ]
        .iter()
        .map(|(p, t)| (format!("{}/{}", dir, p), t.to_string()))
        .collect(),
    }
}

#[test]
fn addressfinder_api_emits_endpoints() {
    let path = "/Users/aavu/repositories/github.com/github-work.com/addressfinder/AddressFinder.Api/AddressFinder.Api.csproj";
    let project = addressfinder()
        .record(build_project_record(path, Some("AddressFinder.Api".to_string()), "AddressFinder.Api"))
        .expect("expected AddressFinder.Api to produce endpoint data");
    assert!(!project.endpoints.is_empty(), "expected at least one endpoint");
    assert!(project.endpoints.iter().any(|ep| ep.route.contains("addresses")));
}

#[test]
fn addressfinder_solution_maps_api_project_root() {
    let path = "/Users/aavu/repositories/github.com/github-work.com/addressfinder/AddressFinder.sln";
    let doc = addressfinder().index(build_solution_index(path)).expect("expected solution index");
    let api_project = doc
        .projects
        .iter()
        .find(|project| project.root_path == "AddressFinder.Api")
        .expect("expected AddressFinder.Api solution child");
    assert!(!api_project.endpoints.is_empty(), "expected endpoints under AddressFinder.Api");
}

#[test]
fn elza_restfulapi_reads_openapi_output_directory_when_present() {
    let path = "/Users/aavu/repositories/github.com/github-work.com/elza-reference-net/src/ElzaReferenceNet.RestfulApi/ElzaReferenceNet.RestfulApi.csproj";
    let dir = "/Users/aavu/repositories/github.com/github-work.com/elza-reference-net";
    let host = Host {
        files: [
            (
                "src/ElzaReferenceNet.RestfulApi/ElzaReferenceNet.RestfulApi.csproj",
                "<Project Sdk=\"Microsoft.NET.Sdk.Web\"><OpenApiDocumentsDirectory>../../openapi</OpenApiDocumentsDirectory></Project>",
            ),
            ("src/ElzaReferenceNet.RestfulApi/Program.cs", "app.MapGet(\"/v1/draws/{n:long}\", X);\napp.MapGet(\"/only-code\", X);\n"),
            ("openapi/openapi.json", "{\"paths\":{\"/v1/draws/{n}\":{\"get\":{}}}}"),
        ]
        .iter()
        .map(|(p, t)| (format!("{}/{}", dir, p), t.to_string()))
        .collect(),
    };

    let project = host
        .record(build_project_record(
            path,
            Some("ElzaReferenceNet.RestfulApi".to_string()),
            "src/ElzaReferenceNet.RestfulApi",
        ))
        .expect("expected project record");

    assert!(
        project.endpoints.iter().any(|endpoint| endpoint.style == "oas"),
        "expected at least one OAS-backed endpoint"
    );
    assert!(
        project.endpoints.iter().all(|endpoint| endpoint.style == "oas"),
        "expected OAS to suppress regex-discovered duplicates"
    );
}

#[test]
fn solution_indexes_are_complete() {
    let path = "/Users/aavu/repositories/github.com/github-work.com/addressfinder/AddressFinder.sln";
    let doc = addressfinder().index(api_index(path)).unwrap();
    assert_eq!(doc.schema_version, 1);
    assert_eq!(doc.ecosystem, "dotnet");
    assert_eq!(doc.root, "/Users/aavu/repositories/github.com/github-work.com/addressfinder");
    assert_eq!(doc.display_name, "AddressFinder");
    assert_eq!(doc.projects.len(), 1);
    let p = &doc.projects[0];
    assert_eq!(p.id, "addressfinder-api");
    assert_eq!(p.name, "AddressFinder.Api");
    assert_eq!(p.root_path, "AddressFinder.Api");
    assert_eq!(
        p.manifest_path,
        "/Users/aavu/repositories/github.com/github-work.com/addressfinder/AddressFinder.Api/AddressFinder.Api.csproj"
    );
    assert_eq!(p.capabilities, vec!["exposes-api"]);
    assert_eq!(p.endpoints.len(), 2);
    assert_eq!(p.endpoints[0].route, "/addresses/{id:guid}");
    assert_eq!(p.endpoints[0].source_path, "AddressFinder.Api/Program.cs");
    assert_eq!(p.endpoints[0].line, 3);
    assert_eq!(p.endpoints[0].project_id, "addressfinder-api");
    assert_eq!(p.endpoints[1].route, "/addresses");
    assert!(p.endpoints[1].requires_auth);
}

#[test]
fn workspaces_prefer_a_solution() {
    let host = addressfinder();
    let root = "/Users/aavu/repositories/github.com/github-work.com/addressfinder";
    let doc = host.index(api_index(root)).unwrap();
    assert_eq!(doc.display_name, "AddressFinder");
    let files = vec!["a/A.csproj".to_string(), ".\\B.csproj".to_string(), "x\\S.sln".to_string(), "T.sln".to_string()];
    assert_eq!(discover_manifest("/w", &files), Some("/w/x/S.sln".to_string()));
    assert_eq!(discover_manifest("/w", &files[1..2].to_vec()), Some("/w/B.csproj".to_string()));
    assert_eq!(discover_manifest(".", &files[..2].to_vec()), Some("a/A.csproj".to_string()));
    assert_eq!(discover_manifest("/w", &vec!["readme.md".to_string()]), None);
}

#[test]
fn projects_are_indexed_alone() {
    let host = Host::new(&[
        ("/w/Api/Api.csproj", "<Project Sdk=\"Microsoft.NET.Sdk.Web\"><RootNamespace> My.Api </RootNamespace></Project>"),
        ("/w/Api/Program.cs", "app.MapGet(\"/x\", X);"),
    ]);
    for run in [api_index("/w"), api_index("/w/Api/Api.csproj"), build_project_index("/w/Api/Api.csproj")] {
        let doc = host.index(run).unwrap();
        assert_eq!(doc.root, "/w/Api");
        assert_eq!(doc.display_name, "Api");
        assert_eq!(doc.projects[0].id, "my-api");
        assert_eq!(doc.projects[0].name, "My.Api");
        assert_eq!(doc.projects[0].root_path, "");
        assert_eq!(doc.projects[0].endpoints[0].source_path, "Program.cs");
        assert_eq!(doc.projects[0].endpoints[0].id, "my-api:Program.cs:1:Get:minimal");
    }
}

#[test]
fn nothing_is_indexed_without_endpoints() {
    let empty = Host::new(&[]);
    assert!(empty.index(api_index("/w")).is_none());
    assert!(empty.index(api_index("/w/a.sln")).is_none());
    assert!(empty.index(api_index("/w/a.csproj")).is_none());
    let host = Host::new(&[
        ("/w/a.sln", ""),
        ("/w/b.csproj", WEB),
        ("/w/c.csproj", ""),
        ("/w/d.csproj", "<Project Sdk=\"Microsoft.NET.Sdk\"/>"),
        ("/w/e.sln", "Project(\"{9A}\") = \"b\", \"b.csproj\", \"{1}\""),
        ("/w/x.cs", ""),
    ]);
    for path in ["/w/a.sln", "/w/b.csproj", "/w/c.csproj", "/w/d.csproj", "/w/e.sln"] {
        assert!(host.index(api_index(path)).is_none(), "{}", path);
    }
}

#[test]
fn a_wrong_reply_counts_as_nothing() {
    let run = api_index("/w").resume(Reply::File(Some("x".to_string())));
    assert!(run.request().is_none());
    assert!(run.into_doc().is_none());
    let run = api_index("/w/a.sln").resume(Reply::Files(vec!["b".to_string()]));
    assert!(run.request().is_none());
    let pending = api_index("/w");
    assert!(matches!(pending.request(), Some(Request::ListFiles(root)) if root == "/w"));
    assert!(pending.into_doc().is_none());
}

#[test]
fn entries_of_solutions_are_projects() {
    let projects = vec![
        ("A".to_string(), "src/A/A.csproj".to_string()),
        ("Items".to_string(), "Items".to_string()),
        ("B".to_string(), "./B.fsproj".to_string()),
    ];
    let entries = entries_of_solution("/w/S.sln", &projects);
    assert_eq!(entries.len(), 2);
    assert_eq!(entries[0].name, "A");
    assert_eq!(entries[0].manifest_path, "/w/src/A/A.csproj");
    assert_eq!(entries[0].root_path, "src/A");
    assert_eq!(entries[1].manifest_path, "/w/B.fsproj");
    assert_eq!(entries[1].root_path, "");
}

#[test]
fn documents_suppress_sources() {
    let host = Host::new(&[
        ("/w/Api.csproj", WEB),
        ("/w/Program.cs", "app.MapGet(\"/code\", X);"),
        ("/w/openapi.yaml", "paths:\n  /doc:\n    post:\n      summary: Add\n"),
    ]);
    let p = host.record(build_project_record("/w/Api.csproj", None, "")).unwrap();
    assert_eq!(p.name, "Api");
    assert_eq!(p.endpoints.len(), 1);
    assert_eq!(p.endpoints[0].id, "api:openapi.yaml:oas:POST:/doc");
    assert_eq!(p.endpoints[0].symbol.as_deref(), Some("Add"));
    let broken = Host::new(&[
        ("/w/Api.csproj", WEB),
        ("/w/Program.cs", "app.MapGet(\"/code\", X);"),
        ("/w/openapi.json", "{\"paths\":"),
    ]);
    let p = broken.record(build_project_record("/w/Api.csproj", None, "")).unwrap();
    assert_eq!(p.endpoints[0].route, "/code");
}

#[test]
fn sources_and_documents_merge_within_a_record() {
    let host = Host::new(&[
        ("/w/Api.csproj", WEB),
        ("/w/A.cs", "[Route(\"a\")]\npublic class A {\n    [HttpGet(\"{id}\")]\n    public int Get(int id) => 1;\n}\n"),
        ("/w/B.cs", "app.MapGet(\"/a/{id:int}\", X).RequireAuthorization(\"p\");\napp.MapGet(\"/b\", X);\n"),
    ]);
    let p = host.record(build_project_record("/w/Api.csproj", Some("n".to_string()), "r")).unwrap();
    assert_eq!(p.endpoints.len(), 2);
    assert_eq!(p.endpoints[0].style, "controller");
    assert_eq!(p.endpoints[0].route, "/a/{id}");
    assert!(p.endpoints[0].requires_auth);
    assert_eq!(p.endpoints[0].auth_schemes, vec!["p"]);
    assert_eq!(p.endpoints[0].source_path, "r/A.cs");
    assert_eq!(p.endpoints[1].route, "/b");
}

#[test]
fn files_give_endpoints_by_their_kind() {
    let none = endpoints_of_file(true, "p", "r", "a.cs", &None);
    assert!(none.is_empty());
    let both = "app.MapGet(\"/m\", X);\npublic class CController {\n  [HttpGet]\n  public int G() => 1;\n}\n";
    let list = endpoints_of_file(true, "p", "r/", "a.cs", &Some(both.to_string()));
    let styles: Vec<&str> = list.iter().map(|e| e.style.as_str()).collect();
    assert_eq!(styles, vec!["minimal-api", "controller"]);
    assert_eq!(list[0].source_path, "r/a.cs");
    assert!(endpoints_of_file(false, "p", "r", "a.json", &Some(both.to_string())).is_empty());
}

const PETS: &str = r#"{
  "security": [{"key": [], "jwt": []}],
  "paths": {
    "/pets": {
      "post": {"operationId": "addPet", "summary": "Add", "security": []},
      "get": {"summary": "List pets"},
      "trace": {}
    },
    "/Owners/{id}": {"options": {"operationId": 5, "security": [{"jwt": []}, {"jwt": [], "k2": []}, 1]}, "get": []},
    "/x": 3
  }
}"#;

#[test]
fn json_documents_are_indexed() {
    let list = parse_oas_endpoints("p", "openapi/openapi.json", PETS);
    assert_eq!(list.len(), 3);
    assert_eq!(list[0].id, "p:openapi/openapi.json:oas:OPTIONS:/Owners/{id}");
    assert_eq!(list[0].method, "OPTIONS");
    assert_eq!(list[0].route, "/Owners/{id}");
    assert_eq!(list[0].symbol, None);
    assert!(list[0].requires_auth && !list[0].allows_anonymous);
    assert_eq!(list[0].auth_schemes, vec!["jwt", "k2"]);
    assert_eq!(list[1].method, "GET");
    assert_eq!(list[1].symbol.as_deref(), Some("List pets"));
    assert!(list[1].requires_auth);
    assert_eq!(list[1].auth_schemes, vec!["jwt", "key"]);
    assert_eq!(list[2].method, "POST");
    assert_eq!(list[2].symbol.as_deref(), Some("addPet"));
    assert!(!list[2].requires_auth && list[2].allows_anonymous);
    for e in &list {
        assert_eq!(e.line, 1);
        assert_eq!(e.style, "oas");
        assert_eq!(e.project_id, "p");
        assert_eq!(e.source_path, "openapi/openapi.json");
    }
}

#[test]
fn other_documents_are_yaml() {
    let yaml = "paths:\n  /a:\n    delete:\n      operationId: del\n    head: {}\n";
    let list = parse_oas_endpoints("p", "swagger.yml", yaml);
    assert_eq!(list.len(), 2);
    assert_eq!(list[0].method, "DELETE");
    assert_eq!(list[0].symbol.as_deref(), Some("del"));
    assert_eq!(list[1].method, "HEAD");
    assert!(parse_oas_endpoints("p", "swagger.json", yaml).is_empty());
    assert_eq!(parse_oas_endpoints("p", "swagger.yaml", PETS).len(), 3);
    assert!(parse_oas_endpoints("p", "a.yaml", ": : :").is_empty());
    assert!(parse_oas_endpoints("p", "a.yaml", "paths: []").is_empty());
}

#[test]
fn documents_are_trees() {
    match parse_json("{\"b\": [1, \"x\"], \"a\": null}") {
        Some(Json::Object(members)) => {
            assert_eq!(members.len(), 2);
            assert_eq!(members[0].0, "a");
            assert!(matches!(members[0].1, Json::Scalar));
            match &members[1].1 {
                Json::Array(items) => {
                    assert!(matches!(items[0], Json::Scalar));
                    assert!(matches!(&items[1], Json::Text(s) if s == "x"));
                }
                _ => panic!("expected an array"),
            }
        }
        _ => panic!("expected an object"),
    }
    assert!(parse_json("{").is_none());
    assert!(matches!(parse_yaml("a: 1"), Some(Json::Object(_))));
    assert!(matches!(parse_json("true"), Some(Json::Scalar)));
    assert!(parse_yaml("a: [").is_none());
}

#[test]
fn security_requirements() {
    let object = |names: &[&str]| Json::Object(names.iter().map(|n| (n.to_string(), Json::Array(vec![]))).collect());
    assert_eq!(security_metadata(None), (false, false, vec![]));
    assert_eq!(security_metadata(Some(&Json::Scalar)), (false, false, vec![]));
    assert_eq!(security_metadata(Some(&Json::Array(vec![]))), (false, true, vec![]));
    let list = Json::Array(vec![object(&["b", "a"]), Json::Scalar, object(&["a", "c"])]);
    assert_eq!(
        security_metadata(Some(&list)),
        (true, false, vec!["b".to_string(), "a".to_string(), "c".to_string()])
    );
    assert_eq!(security_metadata(Some(&Json::Array(vec![object(&[])]))), (true, false, vec![]));
}

#[test]
fn documents_are_indexed_as_trees() {
    let text = |s: &str| Json::Text(s.to_string());
    let op = Json::Object(vec![("operationId".to_string(), text("op")), ("summary".to_string(), text("s"))]);
    let item = Json::Object(vec![("patch".to_string(), op), ("get".to_string(), Json::Object(vec![]))]);
    let doc = Json::Object(vec![("paths".to_string(), Json::Object(vec![("/r".to_string(), item)]))]);
    let list = endpoints_of_document("p", "d.json", &doc);
    assert_eq!(list.len(), 2);
    assert_eq!(list[0].id, "p:d.json:oas:GET:/r");
    assert_eq!(list[1].id, "p:d.json:oas:PATCH:/r");
    assert_eq!(list[1].symbol.as_deref(), Some("op"));
    assert!(endpoints_of_document("p", "d.json", &Json::Array(vec![])).is_empty());
}

#[test]
fn documents_give_each_method_and_route_once() {
    let source = "{\"paths\":{\"/a\":{\"get\":{\"summary\":\"1\"},\"get\":{\"summary\":\"2\"}},\"/b\":{\"get\":{}},\"/b\":{\"get\":{},\"put\":{}}}}";
    let list = parse_oas_endpoints("p", "openapi.json", source);
    let pairs: Vec<(&str, &str)> = list.iter().map(|e| (e.method.as_str(), e.route.as_str())).collect();
    assert_eq!(pairs, vec![("GET", "/a"), ("GET", "/b"), ("PUT", "/b")]);
}

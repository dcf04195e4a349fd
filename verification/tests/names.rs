use dotnet_api_index::host::parse_file_list;
use dotnet_api_index::manifest::{
    parse_project_sdk, parse_solution_projects, parse_xml_text, project_may_expose_api,
    projects_from_matches, sanitize_id,
};
use dotnet_api_index::paths::{
    file_stem, is_ignored_source_path, is_project_path, is_solution_path, join_path,
    looks_like_oas_path, normalize_path, normalize_rel_path, parent_dir, parent_dir_rel,
    trim_trailing_slash, workspace_source_path,
};
use dotnet_api_index::strings::is_white_char;

#[test]
fn white_space_is_that_of_char() {
    for n in 0u32..0x11_0000 {
        if let Some(c) = char::from_u32(n) {
            assert_eq!(is_white_char(c), c.is_whitespace(), "{:x}", n);
        }
    }
}

#[test]
fn file_names_tell_the_kind() {
    assert!(is_solution_path("a/b.sln"));
    assert!(is_solution_path(".sln"));
    assert!(!is_solution_path("a.slnx"));
    assert!(!is_solution_path("sln"));
    for path in ["a.csproj", "x/a.fsproj", "a.vbproj"] {
        assert!(is_project_path(path), "{}", path);
    }
    assert!(!is_project_path("a.CSPROJ"));
    assert!(!is_project_path("csproj"));
    for path in ["obj/a.cs", "bin/a.cs", "x/obj/a.cs", "x/bin/a.cs", "x/.git/a.cs"] {
        assert!(is_ignored_source_path(path), "{}", path);
    }
    for path in ["myobj/a.cs", "obj.cs", ".git/a.cs", "x/binary/a.cs"] {
        assert!(!is_ignored_source_path(path), "{}", path);
    }
}

#[test]
fn openapi_documents_are_told_by_their_paths() {
    for path in [
        "openapi.yaml", "openapi.yml", "openapi.json", "swagger.yaml", "swagger.yml",
        "swagger.json", "x/OpenApi.JSON", "a/openapi/v1.json", "a/Swagger/v1.yaml", "a/docs/v1.yml",
    ] {
        assert!(looks_like_oas_path(path), "{}", path);
    }
    for path in ["openapi/v1.json", "a/openapi/v1.cs", "a/openapi.json.txt", "myopenapi.json", ""] {
        assert!(!looks_like_oas_path(path), "{}", path);
    }
}

#[test]
fn directories_and_stems() {
    assert_eq!(parent_dir("/a/b.sln"), "/a");
    assert_eq!(parent_dir("/b.sln"), "/");
    assert_eq!(parent_dir("b.sln"), ".");
    assert_eq!(parent_dir_rel("a/b/c"), Some("a/b".to_string()));
    assert_eq!(parent_dir_rel("/c"), Some(String::new()));
    assert_eq!(parent_dir_rel("c"), None);
    assert_eq!(file_stem("/a/My.App.sln"), "My.App");
    assert_eq!(file_stem("a.b/c"), "c");
    assert_eq!(file_stem("a/.sln"), "");
    assert_eq!(file_stem("a/"), "");
}

#[test]
fn paths_are_joined() {
    assert_eq!(join_path("", "a"), "a");
    assert_eq!(join_path(".", "a"), "a");
    assert_eq!(join_path("/", "a"), "/a");
    assert_eq!(join_path("x/", "a"), "x/a");
    assert_eq!(join_path("x", "a"), "x/a");
    assert_eq!(join_path("..", "a"), "../a");
    assert_eq!(trim_trailing_slash("a//"), "a");
    assert_eq!(workspace_source_path("", "a.cs"), "a.cs");
    assert_eq!(workspace_source_path("x/", "a.cs"), "x/a.cs");
}

#[test]
fn paths_are_made_normal() {
    for (path, normal) in [
        ("/a/./b/../c", "/a/c"),
        ("a//b/", "a/b"),
        ("../a", "a"),
        ("/..", "/"),
        ("", ""),
        (".", ""),
        ("a/../..", ""),
        ("/a/...", "/a/..."),
        ("./x/../../y", "y"),
    ] {
        assert_eq!(normalize_path(path), normal);
        assert_eq!(normalize_path(normal), normal);
    }
}

#[test]
fn relative_paths_are_made_normal() {
    assert_eq!(normalize_rel_path(".\\src\\A.csproj"), "src/A.csproj");
    assert_eq!(normalize_rel_path("././a/"), "a");
    assert_eq!(normalize_rel_path("/a/b/"), "a/b");
    assert_eq!(normalize_rel_path("\\\\"), "");
    assert_eq!(normalize_rel_path("../a"), "../a");
    assert_eq!(normalize_rel_path("/./a"), "./a");
}

#[test]
fn identifiers_have_words_and_single_dashes() {
    assert_eq!(sanitize_id("AddressFinder.Api"), "addressfinder-api");
    assert_eq!(sanitize_id("  My__App (v2) "), "my-app-v2");
    assert_eq!(sanitize_id("..."), "");
    assert_eq!(sanitize_id("Caf\u{e9}X"), "caf-x");
    for text in ["A b", "--x--", "1.2", ""] {
        let id = sanitize_id(text);
        assert_eq!(sanitize_id(&id), id);
    }
}

#[test]
fn xml_texts_are_trimmed() {
    assert_eq!(parse_xml_text("<a>x</a><b> y\n</b>", "b"), Some("y".to_string()));
    assert_eq!(parse_xml_text("<b>1</b><b>2</b>", "b"), Some("1".to_string()));
    assert_eq!(parse_xml_text("</b><b>1", "b"), None);
    assert_eq!(parse_xml_text("<B>1</B>", "b"), None);
    assert_eq!(parse_xml_text("<b></b>", "b"), Some(String::new()));
}

#[test]
fn sdks_are_read_from_the_project() {
    assert_eq!(
        parse_project_sdk("<?xml Sdk=\"no\"?><Project Sdk=\"Microsoft.NET.Sdk.Web\">"),
        Some("Microsoft.NET.Sdk.Web".to_string())
    );
    assert_eq!(parse_project_sdk("<Project>"), None);
    assert_eq!(parse_project_sdk("<Project Sdk=\"x"), None);
    assert_eq!(parse_project_sdk("Sdk=\"x\""), None);
}

#[test]
fn projects_that_may_expose_an_api() {
    assert!(project_may_expose_api("<Project Sdk=\"Microsoft.NET.Sdk.Web\">"));
    assert!(project_may_expose_api("<FrameworkReference Microsoft.AspNetCore.App />"));
    assert!(project_may_expose_api("Swashbuckle"));
    assert!(project_may_expose_api("<OpenApiDocumentsDirectory>"));
    assert!(!project_may_expose_api("<Project Sdk=\"Microsoft.NET.Sdk\">"));
    assert!(!project_may_expose_api("<A>Microsoft.NET.Sdk.Web</A>"));
}

#[test]
fn solutions_list_their_projects() {
    let solution = "Microsoft Visual Studio Solution File\n\
        Project(\"{FAE}\") = \"Api\", \"src\\Api\\Api.csproj\", \"{1}\"\n\
        EndProject\n\
        Project(\"{FAE}\")=\"Docs\",\"docs\", \"{2}\"\n";
    assert_eq!(
        parse_solution_projects(solution),
        vec![
            ("Api".to_string(), "src/Api/Api.csproj".to_string()),
            ("Docs".to_string(), "docs".to_string()),
        ]
    );
    assert_eq!(parse_solution_projects("Project = \"A\", \"B\""), vec![]);
}

#[test]
fn matches_give_projects_with_a_name_and_a_path() {
    let m = |name: Option<&str>, path: Option<&str>| {
        vec![Some("all".to_string()), name.map(str::to_string), path.map(str::to_string)]
    };
    let found = vec![m(Some("A"), Some("a\\b")), m(None, Some("x")), m(Some("B"), Some("")), vec![]];
    assert_eq!(projects_from_matches(&found), vec![("A".to_string(), "a/b".to_string())]);
}

#[test]
fn file_lists_are_lines() {
    assert_eq!(parse_file_list(" a.cs \r\n\n\tb/c.cs\n  \nd"), vec!["a.cs", "b/c.cs", "d"]);
    assert_eq!(parse_file_list(""), Vec::<String>::new());
}

#[test]
fn identifiers_keep_the_letters_and_digits() {
    for text in ["AddressFinder.Api", "--A b9 ", "Caf\u{e9} 2\u{df}", "", "..."] {
        let kept: String = sanitize_id(text).chars().filter(|c| *c != '-').collect();
        let wanted: String =
            text.chars().filter(|c| c.is_ascii_alphanumeric()).map(|c| c.to_ascii_lowercase()).collect();
        assert_eq!(kept, wanted);
    }
}

#[test]
fn normal_paths_have_only_names() {
    for path in ["/a//./b/..//c/", "x/./y//", "../../z"] {
        let normal = normalize_path(path);
        let rel = normal.strip_prefix('/').unwrap_or(&normal);
        assert_eq!(normal.starts_with('/'), path.starts_with('/'));
        assert!(rel.split('/').all(|part| !part.is_empty() && part != "." && part != ".."), "{}", normal);
    }
}

//! Endpoints of controllers: public methods with `Http*` attributes in
//! controller classes.

use crate::attributes;
use crate::attributes::{AuthMetadata, AuthView};
use crate::model;
use crate::model::{EndpointRecord, EndpointView};
use crate::patterns;
use crate::routes;
use crate::source;
use crate::strings;
use crate::text;
use vstd::prelude::*;

verus! {

/// Finds the declaration of a class: the first group is its name.
pub const CLASS_DECLARATION: &'static str = r#"\bclass\s+([A-Za-z_][A-Za-z0-9_]*)"#;

/// Finds the declaration of a method: the first group is its name.
pub const METHOD_DECLARATION: &'static str =
    r#"^\s*(?:public|internal|protected)\s+(?:async\s+)?(?:[A-Za-z_][A-Za-z0-9_<>,\.\?\[\]]*\s+)+(?P<name>[A-Za-z_][A-Za-z0-9_]*)\s*\("#;

/// The controller that a line stands in.
pub struct ControllerContext {
    pub name: String,
    pub token: String,
    pub area: Option<String>,
    pub base_route: String,
    pub auth: AuthMetadata,
}

/// What a `ControllerContext` holds.
pub struct ControllerView {
    pub name: Seq<char>,
    pub token: Seq<char>,
    pub area: Option<Seq<char>>,
    pub base_route: Seq<char>,
    pub auth: AuthView,
}

impl View for ControllerContext {
    type V = ControllerView;

    open spec fn view(&self) -> ControllerView {
        ControllerView {
            name: self.name@,
            token: self.token@,
            area: text::opt_text(self.area),
            base_route: self.base_route@,
            auth: self.auth@,
        }
    }
}

/// What `c` holds, if any.
pub open spec fn opt_controller(c: Option<ControllerContext>) -> Option<ControllerView> {
    match c {
        Some(x) => Some(x@),
        None => None,
    }
}

/// One of `attrs` has `marker`.
pub open spec fn some_has(attrs: Seq<Seq<char>>, marker: Seq<char>) -> bool {
    exists|i: int| 0 <= i < attrs.len() && text::occurs(#[trigger] attrs[i], marker)
}

/// A class with this name and these attributes is a controller.
pub open spec fn is_controller(attrs: Seq<Seq<char>>, class_name: Seq<char>) -> bool {
    text::ends(class_name, "Controller"@) || some_has(attrs, "ApiController"@) || some_has(
        attrs,
        "[Route("@,
    )
}

/// The name of a class without `Controller` at its end.
pub open spec fn controller_token(class_name: Seq<char>) -> Seq<char> {
    if text::ends(class_name, "Controller"@) {
        class_name.take(class_name.len() - "Controller"@.len())
    } else {
        class_name
    }
}

/// The controller that a class with this name and these attributes is, if any.
pub open spec fn class_controller(attrs: Seq<Seq<char>>, class_name: Seq<char>) -> Option<
    ControllerView,
> {
    if is_controller(attrs, class_name) {
        Some(
            ControllerView {
                name: class_name,
                token: controller_token(class_name),
                area: attributes::marked_literal(attrs, "[Area("@),
                base_route: text::or_empty(attributes::marked_literal(attrs, "[Route("@)),
                auth: attributes::attribute_auth(attrs),
            },
        )
    } else {
        None
    }
}

/// What is known on the way through the lines of a source: the controller, the
/// indentation of its class, and the attributes right above.
#[verifier::ext_equal]
pub struct ScopeView {
    pub controller: Option<ControllerView>,
    pub indent: Option<nat>,
    pub pending: Seq<Seq<char>>,
}

/// What is known before the first line.
pub open spec fn no_scope() -> ScopeView {
    ScopeView { controller: None, indent: None, pending: Seq::empty() }
}

/// `line` is an attribute.
pub open spec fn is_attribute(line: Seq<char>) -> bool {
    text::begins(text::trimmed(line), "["@)
}

/// `line`, which is not empty and not indented further than the class, is
/// outside the controller of `scope`. A brace that opens the class is not.
pub open spec fn leaves(scope: ScopeView, line: Seq<char>) -> bool {
    &&& scope.indent is Some
    &&& text::trimmed(line).len() > 0
    &&& !text::begins(text::trimmed(line), "{"@)
    &&& text::white_prefix(line) <= scope.indent->0
}

/// The controller that `line` stands in, where it is neither an attribute nor
/// the declaration of a class.
pub open spec fn controller_at(scope: ScopeView, line: Seq<char>) -> Option<ControllerView> {
    if leaves(scope, line) {
        None
    } else {
        scope.controller
    }
}

/// What is known after `line`, where `class` are the groups of the class
/// declaration in it.
pub open spec fn scope_after(
    scope: ScopeView,
    line: Seq<char>,
    class: Option<patterns::Groups>,
) -> ScopeView {
    if is_attribute(line) {
        ScopeView { pending: scope.pending.push(text::trimmed(line)), ..scope }
    } else {
        match class {
            Some(found) => {
                let controller = class_controller(
                    scope.pending,
                    patterns::group_text(found, 1),
                );
                ScopeView {
                    controller,
                    indent: if controller is Some {
                        Some(text::white_prefix(line))
                    } else {
                        None
                    },
                    pending: Seq::empty(),
                }
            },
            None => ScopeView {
                controller: controller_at(scope, line),
                indent: if leaves(scope, line) {
                    None
                } else {
                    scope.indent
                },
                pending: Seq::empty(),
            },
        }
    }
}

/// What is known after the first `n` lines.
pub open spec fn scope_until(lines: Seq<Seq<char>>, n: int) -> ScopeView
    decreases n,
{
    if n <= 0 {
        no_scope()
    } else {
        scope_after(
            scope_until(lines, n - 1),
            lines[n - 1],
            patterns::regex_captures(CLASS_DECLARATION@, lines[n - 1]),
        )
    }
}

/// The endpoint of the method `name` of `controller` for one of its HTTP
/// methods, where `attrs` are its attributes and `number` is its line.
pub open spec fn method_endpoint(
    project_id: Seq<char>,
    source_path: Seq<char>,
    number: u32,
    controller: ControllerView,
    attrs: Seq<Seq<char>>,
    name: Seq<char>,
    http: (Seq<char>, Option<Seq<char>>),
) -> EndpointView {
    let auth = attributes::effective_auth(controller.auth, attributes::attribute_auth(attrs));
    let route = match http.1 {
        Some(r) => r,
        None => text::or_empty(attributes::marked_literal(attrs, "[Route("@)),
    };
    EndpointView {
        id: project_id + ":"@ + source_path + ":"@ + text::decimal(number as nat) + ":"@ + http.0
            + ":"@ + name,
        project_id,
        method: http.0,
        route: routes::combined(
            controller.base_route,
            route,
            Some(controller.token),
            Some(name),
            controller.area,
        ),
        source_path,
        line: number,
        style: "controller"@,
        symbol: Some(controller.name + "."@ + name),
        requires_auth: auth.requires_auth,
        allows_anonymous: auth.allows_anonymous,
        auth_schemes: auth.schemes,
    }
}

/// The endpoints of the method `name` of `controller`: one for each of its HTTP
/// methods, in the order of its attributes.
pub open spec fn method_endpoints(
    project_id: Seq<char>,
    source_path: Seq<char>,
    number: u32,
    controller: ControllerView,
    attrs: Seq<Seq<char>>,
    name: Seq<char>,
) -> Seq<EndpointView> {
    attributes::http_methods(attrs).map_values(
        |http: (Seq<char>, Option<Seq<char>>)|
            method_endpoint(project_id, source_path, number, controller, attrs, name, http),
    )
}

/// The endpoints that `line` declares, where `class` and `method` are the groups
/// of the class and the method declaration in it.
pub open spec fn line_endpoints(
    project_id: Seq<char>,
    source_path: Seq<char>,
    number: u32,
    scope: ScopeView,
    line: Seq<char>,
    class: Option<patterns::Groups>,
    method: Option<patterns::Groups>,
) -> Seq<EndpointView> {
    if is_attribute(line) || class is Some {
        Seq::empty()
    } else {
        match (controller_at(scope, line), method) {
            (Some(controller), Some(found)) => method_endpoints(
                project_id,
                source_path,
                number,
                controller,
                scope.pending,
                patterns::group_text(found, 1),
            ),
            _ => Seq::empty(),
        }
    }
}

/// The endpoints that the first `n` lines of `source` declare.
pub open spec fn endpoints_until(
    project_id: Seq<char>,
    source_path: Seq<char>,
    source: Seq<char>,
    n: int,
) -> Seq<EndpointView>
    decreases n,
{
    if n <= 0 {
        Seq::empty()
    } else {
        let lines = text::lines_of(source);
        let line = lines[n - 1];
        endpoints_until(project_id, source_path, source, n - 1) + line_endpoints(
            project_id,
            source_path,
            source::line_number(source, source::line_offset(lines, n - 1) as int),
            scope_until(lines, n - 1),
            line,
            patterns::regex_captures(CLASS_DECLARATION@, line),
            patterns::regex_captures(METHOD_DECLARATION@, line),
        )
    }
}

/// The endpoints that the controllers in `source` declare, in the order of its
/// lines.
pub open spec fn controller_endpoints(
    project_id: Seq<char>,
    source_path: Seq<char>,
    source: Seq<char>,
) -> Seq<EndpointView> {
    endpoints_until(project_id, source_path, source, text::lines_of(source).len() as int)
}

/// What is known on the way through the lines of a source.
pub struct Scope {
    pub controller: Option<ControllerContext>,
    pub indent: Option<usize>,
    pub pending: Vec<String>,
}

impl View for Scope {
    type V = ScopeView;

    open spec fn view(&self) -> ScopeView {
        ScopeView {
            controller: opt_controller(self.controller),
            indent: match self.indent {
                Some(n) => Some(n as nat),
                None => None,
            },
            pending: text::texts(self.pending@),
        }
    }
}

/// Whether one of `attrs` has `marker`.
fn any_has(attrs: &[String], marker: &str) -> (r: bool)
    ensures
        r == some_has(text::texts(attrs@), marker@),
{
    let mut i: usize = 0;
    while i < attrs.len()
        invariant
            i <= attrs@.len(),
            forall|j: int|
                0 <= j < i ==> !text::occurs(#[trigger] text::texts(attrs@)[j], marker@),
        decreases attrs@.len() - i,
    {
        if strings::contains(attrs[i].as_str(), marker) {
            assert(text::occurs(text::texts(attrs@)[i as int], marker@));
            return true;
        }
        i = i + 1;
    }
    false
}

/// The controller that a class with this name and these attributes is, if any.
pub fn controller_of_class(attrs: &[String], class_name: &str) -> (r: Option<ControllerContext>)
    ensures
        opt_controller(r) == class_controller(text::texts(attrs@), class_name@),
{
    let suffixed = strings::ends_with(class_name, "Controller");
    if suffixed || any_has(attrs, "ApiController") || any_has(attrs, "[Route(") {
        let token = if suffixed {
            strings::drop_suffix(class_name, "Controller")
        } else {
            class_name.to_owned()
        };
        let base_route = match attributes::parse_route_attribute(attrs) {
            Some(r) => r,
            None => String::new(),
        };
        Some(
            ControllerContext {
                name: class_name.to_owned(),
                token,
                area: attributes::parse_area_attribute(attrs),
                base_route,
                auth: attributes::parse_auth_metadata(attrs),
            },
        )
    } else {
        None
    }
}

/// Goes past `line`, where `class` are the groups of the class declaration in
/// it.
pub fn advance_scope(scope: &mut Scope, line: &str, class: &Option<Vec<Option<String>>>)
    ensures
        final(scope)@ == scope_after(old(scope)@, line@, patterns::opt_groups(*class)),
{
    let ghost before = scope@;
    let t = strings::trim(line);
    if strings::starts_with(t.as_str(), "[") {
        scope.pending.push(t);
        assert(text::texts(scope.pending@) == before.pending.push(t@));
        return ;
    }
    match class {
        Some(found) => {
            let class_name = patterns::group(found, 1);
            scope.controller = controller_of_class(scope.pending.as_slice(), class_name.as_str());
            scope.indent = if scope.controller.is_some() {
                Some(strings::indent_of(line))
            } else {
                None
            };
        },
        None => {
            if scope_left(scope, line) {
                scope.controller = None;
                scope.indent = None;
            }
        },
    }
    scope.pending = Vec::new();
    assert(text::texts(scope.pending@) == Seq::<Seq<char>>::empty());
}

/// Whether `line` is outside the controller of `scope`.
fn scope_left(scope: &Scope, line: &str) -> (r: bool)
    ensures
        r == leaves(scope@, line@),
{
    match scope.indent {
        Some(indent) => {
            let t = strings::trim(line);
            !t.as_str().is_empty() && !strings::starts_with(t.as_str(), "{")
                && strings::indent_of(line) <= indent
        },
        None => false,
    }
}

/// The endpoints of the method `name` of `controller`.
pub fn endpoints_of_method(
    project_id: &str,
    source_path: &str,
    number: u32,
    controller: &ControllerContext,
    attrs: &[String],
    name: &str,
) -> (r: Vec<EndpointRecord>)
    ensures
        model::endpoint_views(r@) == method_endpoints(
            project_id@,
            source_path@,
            number,
            controller@,
            text::texts(attrs@),
            name@,
        ),
{
    let methods = attributes::parse_http_method_attributes(attrs);
    let method_route = match attributes::parse_route_attribute(attrs) {
        Some(r) => r,
        None => String::new(),
    };
    let auth = attributes::merge_auth_metadata(&controller.auth, attrs);
    let area = match &controller.area {
        Some(a) => Some(a.as_str()),
        None => None,
    };
    let ghost expected = method_endpoints(
        project_id@,
        source_path@,
        number,
        controller@,
        text::texts(attrs@),
        name@,
    );
    let mut endpoints: Vec<EndpointRecord> = Vec::new();
    let mut i: usize = 0;
    while i < methods.len()
        invariant
            i <= methods@.len(),
            attributes::method_views(methods@) == attributes::http_methods(text::texts(attrs@)),
            method_route@ == text::or_empty(
                attributes::marked_literal(text::texts(attrs@), "[Route("@),
            ),
            auth@ == attributes::effective_auth(
                controller.auth@,
                attributes::attribute_auth(text::texts(attrs@)),
            ),
            text::opt_str(area) == controller@.area,
            expected == method_endpoints(
                project_id@,
                source_path@,
                number,
                controller@,
                text::texts(attrs@),
                name@,
            ),
            model::endpoint_views(endpoints@) == expected.take(i as int),
        decreases methods@.len() - i,
    {
        let ghost front = model::endpoint_views(endpoints@);
        let verb = methods[i].0.as_str();
        let ghost http = attributes::method_views(methods@)[i as int];
        let route = match &methods[i].1 {
            Some(r) => r.as_str(),
            None => method_route.as_str(),
        };
        let mut id = project_id.to_owned();
        id.append(":");
        id.append(source_path);
        id.append(":");
        let digits = strings::decimal_of(number);
        id.append(digits.as_str());
        id.append(":");
        id.append(verb);
        id.append(":");
        id.append(name);
        let mut symbol = controller.name.clone();
        symbol.append(".");
        symbol.append(name);
        let e = EndpointRecord {
            id,
            project_id: project_id.to_owned(),
            method: verb.to_owned(),
            route: routes::combine_routes(
                controller.base_route.as_str(),
                route,
                Some(controller.token.as_str()),
                Some(name),
                area,
            ),
            source_path: source_path.to_owned(),
            line: number,
            style: "controller".to_owned(),
            symbol: Some(symbol),
            requires_auth: auth.requires_auth,
            allows_anonymous: auth.allows_anonymous,
            auth_schemes: strings::copy_texts(&auth.schemes),
        };
        assert(e@ == expected[i as int]);
        endpoints.push(e);
        assert(model::endpoint_views(endpoints@) == front.push(expected[i as int]));
        i = i + 1;
    }
    endpoints
}

/// The endpoints that the controllers in `source` declare, in the order of its
/// lines.
pub fn parse_controller_endpoints(project_id: &str, source_path: &str, source: &str) -> (r: Vec<
    EndpointRecord,
>)
    ensures
        model::endpoint_views(r@) == controller_endpoints(project_id@, source_path@, source@),
{
    let lines = strings::lines(source);
    let ghost views = text::lines_of(source@);
    let mut endpoints: Vec<EndpointRecord> = Vec::new();
    let mut scope = Scope { controller: None, indent: None, pending: Vec::new() };
    assert(scope@ == no_scope());
    let mut offset: usize = 0;
    let mut i: usize = 0;
    while i < lines.len()
        invariant
            views == text::lines_of(source@),
            views == text::texts(lines@),
            i <= lines@.len(),
            scope@ == scope_until(views, i as int),
            offset == source::capped(source::line_offset(views, i as int)),
            model::endpoint_views(endpoints@) == endpoints_until(
                project_id@,
                source_path@,
                source@,
                i as int,
            ),
        decreases lines@.len() - i,
    {
        let line = lines[i].as_str();
        assert(line@ == views[i as int]);
        let t = strings::trim(line);
        let class = if strings::starts_with(t.as_str(), "[") {
            None
        } else {
            patterns::captures(CLASS_DECLARATION, line)
        };
        let ghost front = model::endpoint_views(endpoints@);
        let mut found = endpoints_at_line(
            project_id,
            source_path,
            source,
            offset,
            &scope,
            line,
            class.is_some(),
            Ghost(source::line_offset(views, i as int)),
            Ghost(patterns::opt_groups(class)),
        );
        let ghost added = model::endpoint_views(found@);
        endpoints.append(&mut found);
        assert(model::endpoint_views(endpoints@) == front + added);
        advance_scope(&mut scope, line, &class);
        offset = source::next_offset(offset, line, Ghost(source::line_offset(views, i as int)));
        i = i + 1;
    }
    endpoints
}

/// The endpoints that `line`, which begins at `offset`, declares.
fn endpoints_at_line(
    project_id: &str,
    source_path: &str,
    source: &str,
    offset: usize,
    scope: &Scope,
    line: &str,
    is_class: bool,
    Ghost(x): Ghost<nat>,
    Ghost(class): Ghost<Option<patterns::Groups>>,
) -> (r: Vec<EndpointRecord>)
    requires
        offset == source::capped(x),
        is_class == (class is Some),
    ensures
        model::endpoint_views(r@) == line_endpoints(
            project_id@,
            source_path@,
            source::line_number(source@, x as int),
            scope@,
            line@,
            class,
            patterns::regex_captures(METHOD_DECLARATION@, line@),
        ),
{
    let none: Vec<EndpointRecord> = Vec::new();
    assert(model::endpoint_views(none@) == Seq::<EndpointView>::empty());
    let t = strings::trim(line);
    if is_class || strings::starts_with(t.as_str(), "[") || scope_left(scope, line) {
        return none;
    }
    match &scope.controller {
        Some(controller) => {
            if attributes::parse_http_method_attributes(scope.pending.as_slice()).len() == 0 {
                assert(attributes::http_methods(scope@.pending).len() == 0);
                assert(line_endpoints(
                    project_id@,
                    source_path@,
                    source::line_number(source@, x as int),
                    scope@,
                    line@,
                    class,
                    patterns::regex_captures(METHOD_DECLARATION@, line@),
                ) =~= Seq::<EndpointView>::empty());
                return none;
            }
            match patterns::captures(METHOD_DECLARATION, line) {
                Some(found) => {
                    let name = patterns::group(&found, 1);
                    let number: u32 = source::line_number_for_offset(source, offset);
                    endpoints_of_method(
                        project_id,
                        source_path,
                        number,
                        controller,
                        scope.pending.as_slice(),
                        name.as_str(),
                    )
                },
                None => none,
            }
        },
        None => none,
    }
}

} // verus!

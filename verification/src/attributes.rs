//! Attributes of controllers and of their methods.

use crate::strings;
use crate::text;
use vstd::prelude::*;

verus! {

/// What attributes or calls say of access to an endpoint.
pub struct AuthMetadata {
    pub requires_auth: bool,
    pub allows_anonymous: bool,
    pub schemes: Vec<String>,
}

/// What `AuthMetadata` holds.
pub struct AuthView {
    pub requires_auth: bool,
    pub allows_anonymous: bool,
    pub schemes: Seq<Seq<char>>,
}

impl View for AuthMetadata {
    type V = AuthView;

    open spec fn view(&self) -> AuthView {
        AuthView {
            requires_auth: self.requires_auth,
            allows_anonymous: self.allows_anonymous,
            schemes: text::texts(self.schemes@),
        }
    }
}

/// Nothing said of access.
pub open spec fn no_auth() -> AuthView {
    AuthView { requires_auth: false, allows_anonymous: false, schemes: Seq::empty() }
}

impl Default for AuthMetadata {
    fn default() -> (r: AuthMetadata)
        ensures
            r@ == no_auth(),
    {
        let r = AuthMetadata { requires_auth: false, allows_anonymous: false, schemes: Vec::new() };
        assert(r@.schemes == Seq::<Seq<char>>::empty());
        r
    }
}

/// What stands between the first two double quotes of `s`.
pub open spec fn first_literal(s: Seq<char>) -> Option<Seq<char>> {
    match text::after(s, "\""@) {
        Some(rest) => text::before(rest, "\""@),
        None => None,
    }
}

/// The parts, between commas, of the first string literal behind `key = ` in
/// `s`; trimmed, and without the empty ones.
pub open spec fn named_list(s: Seq<char>, key: Seq<char>) -> Seq<Seq<char>> {
    match text::after(s, key + " = "@) {
        Some(value) => match first_literal(value) {
            Some(literal) => text::nonempty(text::all_trimmed(text::pieces(literal, ','))),
            None => Seq::empty(),
        },
        None => Seq::empty(),
    }
}

/// The first string literal of the first of `attrs` that has `marker`.
pub open spec fn marked_literal(attrs: Seq<Seq<char>>, marker: Seq<char>) -> Option<Seq<char>>
    decreases attrs.len(),
{
    if attrs.len() == 0 {
        None
    } else if text::occurs(attrs[0], marker) {
        first_literal(attrs[0])
    } else {
        marked_literal(attrs.skip(1), marker)
    }
}

/// The HTTP method that `attr` stands for, and its route.
pub open spec fn http_attribute(attr: Seq<char>) -> Option<(Seq<char>, Option<Seq<char>>)> {
    let a = text::trimmed(attr);
    if text::occurs(a, "[HttpGet"@) {
        Some(("GET"@, first_literal(a)))
    } else if text::occurs(a, "[HttpPost"@) {
        Some(("POST"@, first_literal(a)))
    } else if text::occurs(a, "[HttpPut"@) {
        Some(("PUT"@, first_literal(a)))
    } else if text::occurs(a, "[HttpDelete"@) {
        Some(("DELETE"@, first_literal(a)))
    } else if text::occurs(a, "[HttpPatch"@) {
        Some(("PATCH"@, first_literal(a)))
    } else {
        None
    }
}

/// The HTTP methods that `attrs` stand for, in order, with their routes.
pub open spec fn http_methods(attrs: Seq<Seq<char>>) -> Seq<(Seq<char>, Option<Seq<char>>)>
    decreases attrs.len(),
{
    if attrs.len() == 0 {
        Seq::empty()
    } else {
        let front = http_methods(attrs.drop_last());
        match http_attribute(attrs.last()) {
            Some(m) => front.push(m),
            None => front,
        }
    }
}

/// What `attrs`, read in order, say of access.
pub open spec fn attribute_auth(attrs: Seq<Seq<char>>) -> AuthView
    decreases attrs.len(),
{
    if attrs.len() == 0 {
        no_auth()
    } else {
        let front = attribute_auth(attrs.drop_last());
        let a = text::trimmed(attrs.last());
        if text::occurs(a, "[AllowAnonymous"@) {
            AuthView { requires_auth: false, allows_anonymous: true, schemes: Seq::empty() }
        } else if text::occurs(a, "[Authorize"@) {
            AuthView {
                requires_auth: true,
                allows_anonymous: front.allows_anonymous,
                schemes: text::union_of(
                    front.schemes,
                    named_list(a, "AuthenticationSchemes"@),
                ),
            }
        } else {
            front
        }
    }
}

/// What holds for a method whose own attributes say `local`, in a controller
/// of which `inherited` holds.
pub open spec fn effective_auth(inherited: AuthView, local: AuthView) -> AuthView {
    if local.allows_anonymous {
        local
    } else {
        AuthView {
            requires_auth: inherited.requires_auth || local.requires_auth,
            allows_anonymous: inherited.allows_anonymous,
            schemes: text::union_of(inherited.schemes, local.schemes),
        }
    }
}

/// The methods and routes that `v` holds.
pub open spec fn method_views(v: Seq<(String, Option<String>)>) -> Seq<
    (Seq<char>, Option<Seq<char>>),
> {
    v.map_values(|m: (String, Option<String>)| (m.0@, text::opt_text(m.1)))
}

/// What stands between the first two double quotes of `input`.
pub fn parse_first_string_literal(input: &str) -> (r: Option<String>)
    ensures
        text::opt_text(r) == first_literal(input@),
{
    match strings::text_after(input, "\"") {
        Some(rest) => strings::text_before(rest.as_str(), "\""),
        None => None,
    }
}

/// The parts of the string literal that `key` is set to.
pub fn parse_named_string_list(input: &str, key: &str) -> (r: Vec<String>)
    ensures
        text::texts(r@) == named_list(input@, key@),
{
    let empty: Vec<String> = Vec::new();
    assert(text::texts(empty@) == Seq::<Seq<char>>::empty());
    let mut marker = key.to_owned();
    marker.append(" = ");
    match strings::text_after(input, marker.as_str()) {
        Some(value) => match parse_first_string_literal(value.as_str()) {
            Some(literal) => {
                let parts = strings::split(literal.as_str(), ',');
                let parts = strings::trim_all(&parts);
                strings::drop_empty(&parts)
            },
            None => empty,
        },
        None => empty,
    }
}

/// The first string literal of the first of `attrs` that has `marker`.
fn first_marked_literal(attrs: &[String], marker: &str) -> (r: Option<String>)
    ensures
        text::opt_text(r) == marked_literal(text::texts(attrs@), marker@),
{
    let ghost views = text::texts(attrs@);
    let mut i: usize = 0;
    assert(views.skip(0) == views);
    while i < attrs.len()
        invariant
            views == text::texts(attrs@),
            i <= attrs@.len(),
            marked_literal(views.skip(i as int), marker@) == marked_literal(views, marker@),
        decreases attrs@.len() - i,
    {
        assert(views.skip(i as int)[0] == attrs@[i as int]@);
        assert(views.skip(i as int).skip(1) == views.skip(i + 1));
        if strings::contains(attrs[i].as_str(), marker) {
            return parse_first_string_literal(attrs[i].as_str());
        }
        i = i + 1;
    }
    None
}

/// The route that `attrs` give.
pub fn parse_route_attribute(attrs: &[String]) -> (r: Option<String>)
    ensures
        text::opt_text(r) == marked_literal(text::texts(attrs@), "[Route("@),
{
    first_marked_literal(attrs, "[Route(")
}

/// The area that `attrs` give.
pub fn parse_area_attribute(attrs: &[String]) -> (r: Option<String>)
    ensures
        text::opt_text(r) == marked_literal(text::texts(attrs@), "[Area("@),
{
    first_marked_literal(attrs, "[Area(")
}

/// The HTTP method that `attr` stands for.
fn http_method_name(attr: &str) -> (r: Option<String>)
    ensures
        text::opt_text(r) == (match http_attribute(attr@) {
            Some(m) => Some(m.0),
            None => None,
        }),
{
    let a = strings::trim(attr);
    let a = a.as_str();
    if strings::contains(a, "[HttpGet") {
        Some("GET".to_owned())
    } else if strings::contains(a, "[HttpPost") {
        Some("POST".to_owned())
    } else if strings::contains(a, "[HttpPut") {
        Some("PUT".to_owned())
    } else if strings::contains(a, "[HttpDelete") {
        Some("DELETE".to_owned())
    } else if strings::contains(a, "[HttpPatch") {
        Some("PATCH".to_owned())
    } else {
        None
    }
}

/// The HTTP methods that `attrs` stand for, in order, with their routes.
pub fn parse_http_method_attributes(attrs: &[String]) -> (r: Vec<(String, Option<String>)>)
    ensures
        method_views(r@) == http_methods(text::texts(attrs@)),
{
    let ghost views = text::texts(attrs@);
    let mut r: Vec<(String, Option<String>)> = Vec::new();
    let mut i: usize = 0;
    while i < attrs.len()
        invariant
            views == text::texts(attrs@),
            i <= attrs@.len(),
            method_views(r@) == http_methods(views.take(i as int)),
        decreases attrs@.len() - i,
    {
        let ghost front = method_views(r@);
        assert(views.take(i + 1).drop_last() == views.take(i as int));
        assert(views.take(i + 1).last() == attrs@[i as int]@);
        match http_method_name(attrs[i].as_str()) {
            Some(name) => {
                let a = strings::trim(attrs[i].as_str());
                let route = parse_first_string_literal(a.as_str());
                let ghost m = (name@, text::opt_text(route));
                r.push((name, route));
                assert(method_views(r@) == front.push(m));
            },
            None => {},
        }
        i = i + 1;
    }
    assert(views.take(i as int) == views);
    r
}

/// What `attrs`, read in order, say of access.
pub fn parse_auth_metadata(attrs: &[String]) -> (r: AuthMetadata)
    ensures
        r@ == attribute_auth(text::texts(attrs@)),
{
    let ghost views = text::texts(attrs@);
    let mut auth = AuthMetadata::default();
    let mut i: usize = 0;
    assert(views.take(0).len() == 0);
    while i < attrs.len()
        invariant
            views == text::texts(attrs@),
            i <= attrs@.len(),
            auth@ == attribute_auth(views.take(i as int)),
        decreases attrs@.len() - i,
    {
        assert(views.take(i + 1).drop_last() == views.take(i as int));
        assert(views.take(i + 1).last() == attrs@[i as int]@);
        let a = strings::trim(attrs[i].as_str());
        if strings::contains(a.as_str(), "[AllowAnonymous") {
            auth = AuthMetadata {
                requires_auth: false,
                allows_anonymous: true,
                schemes: Vec::new(),
            };
            assert(auth@.schemes == Seq::<Seq<char>>::empty());
        } else if strings::contains(a.as_str(), "[Authorize") {
            let named = parse_named_string_list(a.as_str(), "AuthenticationSchemes");
            auth.requires_auth = true;
            strings::extend_missing(&mut auth.schemes, &named);
        }
        i = i + 1;
    }
    assert(views.take(i as int) == views);
    auth
}

/// What holds for a method with the attributes `attrs` in a controller of which
/// `inherited` holds.
pub fn merge_auth_metadata(inherited: &AuthMetadata, attrs: &[String]) -> (r: AuthMetadata)
    ensures
        r@ == effective_auth(inherited@, attribute_auth(text::texts(attrs@))),
{
    let local = parse_auth_metadata(attrs);
    if local.allows_anonymous {
        return local;
    }
    let mut schemes = strings::copy_texts(&inherited.schemes);
    strings::extend_missing(&mut schemes, &local.schemes);
    AuthMetadata {
        requires_auth: inherited.requires_auth || local.requires_auth,
        allows_anonymous: inherited.allows_anonymous,
        schemes,
    }
}

} // verus!

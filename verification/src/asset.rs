//! Names for the things outside a workspace that its pipelines touch.
//!
//! Two pipelines are connected when they name the same thing, so a name has to
//! come out the same whichever side of it a node is on.
use crate::json::{field, field_in, member, text, text_in, Doc, Json};
use crate::text::{
    ascii_letter, before_first, chars_of, contains, drop_back, drop_front, ends, ends_with, find,
    glue2, glue3, has_char, is_ascii_letter, lemma_find, lower, lower_char, mentions, split,
    split_on, stands_at, strip_back, strip_front, swap_char, swapped, take_before, text_of, text_opt, texts,
    trim, trimmed,
};
use vstd::prelude::*;
use vstd::string::*;

verus! {

/// Something outside the workspace that pipelines read or write.
#[derive(Debug, Clone, PartialEq, Eq)]
pub struct Asset {
    /// Canonical name, stable enough that two pipelines naming the same thing
    /// produce the same string. This is the join key of the whole graph.
    pub id: String,
    /// Broad family: file, object, topic, index, collection, table, api,
    /// database or service.
    pub kind: String,
}

/// A property that is a text with something in it besides whitespace.
pub open spec fn prop(props: Doc, k: Seq<char>) -> Option<Seq<char>> {
    match text_in(field_in(Some(props), k)) {
        Some(t) => if trimmed(t).len() > 0 {
            Some(trimmed(t))
        } else {
            None
        },
        None => None,
    }
}

/// The first of two that is there.
pub open spec fn either(a: Option<Seq<char>>, b: Option<Seq<char>>) -> Option<Seq<char>> {
    if a is Some {
        a
    } else {
        b
    }
}

/// The connector family, used as the scheme when the target has no natural
/// one: `snk.postgres` gives `postgres`.
pub open spec fn family(component: Seq<char>) -> Seq<char> {
    let parts = split(component, '.');
    if parts.len() > 1 {
        parts[1]
    } else {
        "duckle"@
    }
}

/// An authority with a scheme before it: its own, or the family.
pub open spec fn prefixed(family: Seq<char>, authority: Seq<char>) -> Seq<char> {
    if mentions(authority, "://"@) {
        drop_back(authority, '/')
    } else {
        family + "://"@ + authority
    }
}

/// An address joined to the thing inside it, with no empty segment between.
pub open spec fn address(family: Seq<char>, authority: Seq<char>, tail: Seq<char>) -> Seq<char> {
    let base = prefixed(family, authority);
    if ends(base, "://"@) {
        base + tail
    } else {
        drop_back(base, '/') + "/"@ + tail
    }
}

/// The property that says where the server is.
pub open spec fn server(props: Doc) -> Option<Seq<char>> {
    either(
        prop(props, "host"@),
        either(
            prop(props, "endpoint"@),
            either(
                prop(props, "uri"@),
                either(prop(props, "connectionString"@), prop(props, "connect"@)),
            ),
        ),
    )
}

/// Where the server is, when the properties say; empty when they do not.
pub open spec fn authority(props: Doc) -> Seq<char> {
    match (server(props), prop(props, "port"@)) {
        (Some(h), Some(p)) => if !mentions(h, "://"@) && !h.contains(':') {
            h + ":"@ + p
        } else {
            drop_back(h, '/')
        },
        (Some(h), None) => drop_back(h, '/'),
        (None, _) => Seq::empty(),
    }
}

/// A path with forward slashes and a lower-case drive letter.
pub open spec fn normalised(path: Seq<char>) -> Seq<char> {
    let unified = swapped(path, '\\', '/');
    if unified.len() >= 2 && unified[1] == ':' && is_ascii_letter(unified[0]) {
        unified.update(0, lower(unified[0]))
    } else {
        unified
    }
}

/// The first host in a comma-separated list.
pub open spec fn leading_host(list: Seq<char>) -> Seq<char> {
    trimmed(before_first(list, ','))
}

/// What stands before the name inside a database: `name.`, or nothing.
pub open spec fn qualifier(part: Option<Seq<char>>) -> Seq<char> {
    match part {
        Some(p) => p + "."@,
        None => Seq::empty(),
    }
}

/// The property that names a whole account, project or repository.
pub open spec fn service(props: Doc) -> Option<Seq<char>> {
    either(
        prop(props, "account"@),
        either(
            prop(props, "project"@),
            either(
                prop(props, "workspace"@),
                either(
                    prop(props, "repo"@),
                    either(prop(props, "indexHost"@), prop(props, "contactPoints"@)),
                ),
            ),
        ),
    )
}

/// The name and the kind of what a node with these properties points at, or
/// nothing when no property names a target. The most specific shape wins.
pub open spec fn target(component: Seq<char>, props: Doc) -> Option<(Seq<char>, Seq<char>)> {
    let f = family(component);
    let at = authority(props);
    let brokers = either(prop(props, "brokers"@), prop(props, "contactPoints"@));
    let table = either(prop(props, "tableName"@), prop(props, "table"@));
    let object = either(prop(props, "object"@), prop(props, "objectName"@));
    let database = prop(props, "database"@);
    if let Some(path) = prop(props, "path"@) {
        Some(
            (
                normalised(path),
                if mentions(path, "://"@) {
                    "object"@
                } else {
                    "file"@
                },
            ),
        )
    } else if prop(props, "bucket"@) is Some && prop(props, "key"@) is Some {
        Some(
            (address(f, prop(props, "bucket"@)->0, drop_front(prop(props, "key"@)->0, '/')), "object"@),
        )
    } else if brokers is Some && prop(props, "topic"@) is Some {
        Some((address(f, leading_host(brokers->0), prop(props, "topic"@)->0), "topic"@))
    } else if let Some(index) = prop(props, "index"@) {
        Some((address(f, at, index), "index"@))
    } else if let Some(collection) = prop(props, "collection"@) {
        Some((address(f, at, qualifier(database) + collection), "collection"@))
    } else if let Some(t) = table {
        Some(
            (address(f, at, qualifier(database) + qualifier(prop(props, "schema"@)) + t), "table"@),
        )
    } else if let Some(o) = object {
        Some((address(f, at, o), "object"@))
    } else if let Some(url) = prop(props, "url"@) {
        Some((drop_back(before_first(url, '?'), '/'), "api"@))
    } else if let Some(d) = database {
        Some((address(f, at, d), "database"@))
    } else if at.len() > 0 {
        Some((prefixed(f, at), "database"@))
    } else if let Some(s) = service(props) {
        Some((prefixed(f, leading_host(s)), "service"@))
    } else {
        None
    }
}

/// Why a node with this component could not be named.
pub open spec fn no_target(component: Seq<char>) -> Seq<char> {
    "no target property on "@ + component
        + "; expected one of path, bucket+key, topic,          index, collection, tableName, object, url or database"@
}

/// A property that is a text with something in it besides whitespace.
fn property(props: &Json, k: &str) -> (r: Option<String>)
    ensures
        text_opt(r) == prop(props@, k@),
{
    match text(field(Some(props), k)) {
        Some(t) => {
            let v = trim(t);
            if v.as_str().is_empty() {
                None
            } else {
                Some(v)
            }
        },
        None => None,
    }
}

/// The first of two properties that is there.
fn property_or(first: Option<String>, props: &Json, k: &str) -> (r: Option<String>)
    ensures
        text_opt(r) == either(text_opt(first), prop(props@, k@)),
{
    match first {
        Some(v) => Some(v),
        None => property(props, k),
    }
}

/// The connector family of a component.
fn family_of(component: &str) -> (r: String)
    ensures
        r@ == family(component@),
{
    let parts = split_on(component, '.');
    assert(texts(parts@).len() == parts@.len());
    if parts.len() > 1 {
        assert(texts(parts@)[1] == parts@[1]@);
        parts[1].clone()
    } else {
        "duckle".to_owned()
    }
}

/// An authority with a scheme before it.
fn with_scheme(family: &str, authority: &str) -> (r: String)
    ensures
        r@ == prefixed(family@, authority@),
{
    if contains(authority, "://") {
        strip_back(authority, '/')
    } else {
        glue3(family, "://", authority)
    }
}

/// An address joined to the thing inside it.
fn address_of(family: &str, authority: &str, tail: &str) -> (r: String)
    ensures
        r@ == address(family@, authority@, tail@),
{
    let base = with_scheme(family, authority);
    if ends_with(base.as_str(), "://") {
        glue2(base.as_str(), tail)
    } else {
        let stripped = strip_back(base.as_str(), '/');
        glue3(stripped.as_str(), "/", tail)
    }
}

/// Where the server is, when the properties say.
fn authority_of(props: &Json) -> (r: String)
    ensures
        r@ == authority(props@),
{
    let host = property(props, "host");
    let host = property_or(host, props, "endpoint");
    let host = property_or(host, props, "uri");
    let host = property_or(host, props, "connectionString");
    let host = property_or(host, props, "connect");
    assert(text_opt(host) == server(props@));
    match (host, property(props, "port")) {
        (Some(h), Some(p)) => {
            if !contains(h.as_str(), "://") && !has_char(h.as_str(), ':') {
                glue3(h.as_str(), ":", p.as_str())
            } else {
                strip_back(h.as_str(), '/')
            }
        },
        (Some(h), None) => strip_back(h.as_str(), '/'),
        (None, _) => String::new(),
    }
}

/// Lower-case the drive letter and use forward slashes, so `C:\data\x.csv` and
/// `c:/data/x.csv` are recognised as the same file.
pub fn normalise_path(path: &str) -> (r: String)
    ensures
        r@ == normalised(path@),
{
    let unified = swap_char(path, '\\', '/');
    let v = chars_of(unified.as_str());
    if v.len() >= 2 && v[1] == ':' && ascii_letter(v[0]) {
        let mut out = String::new();
        out.push(lower_char(v[0]));
        let rest = text_of(&v, 1, v.len());
        out.append(rest.as_str());
        assert(out@ == unified@.update(0, lower(unified@[0])));
        out
    } else {
        unified
    }
}

/// The first host in a comma-separated broker list, so `a:9092,b:9092` and
/// `a:9092` name the same cluster.
pub fn first_host(brokers: &str) -> (r: String)
    ensures
        r@ == leading_host(brokers@),
{
    let head = take_before(brokers, ',');
    trim(head.as_str())
}

/// `name.`, or nothing.
fn qualifier_of(part: &Option<String>) -> (r: String)
    ensures
        r@ == qualifier(text_opt(*part)),
{
    match part {
        Some(p) => glue2(p.as_str(), "."),
        None => String::new(),
    }
}

fn asset(id: String, kind: &str) -> (r: Asset)
    ensures
        r.id@ == id@,
        r.kind@ == kind@,
{
    Asset { id, kind: kind.to_owned() }
}

/// Name the thing a source or sink node points at.
///
/// Template placeholders such as `${date}` are deliberately kept: a daily file
/// is one asset with a date in its name, not a new asset every morning.
pub fn asset_of(component_id: &str, props: &Json) -> (r: Result<Asset, String>)
    ensures
        match r {
            Ok(a) => target(component_id@, props@) == Some((a.id@, a.kind@)),
            Err(e) => target(component_id@, props@) is None && e@ == no_target(component_id@),
        },
{
    let family = family_of(component_id);
    let f = family.as_str();
    if let Some(path) = property(props, "path") {
        let kind = if contains(path.as_str(), "://") { "object" } else { "file" };
        return Ok(asset(normalise_path(path.as_str()), kind));
    }
    if let (Some(bucket), Some(key)) = (property(props, "bucket"), property(props, "key")) {
        let tail = strip_front(key.as_str(), '/');
        return Ok(asset(address_of(f, bucket.as_str(), tail.as_str()), "object"));
    }
    let brokers = property_or(property(props, "brokers"), props, "contactPoints");
    if let (Some(list), Some(topic)) = (brokers, property(props, "topic")) {
        let host = first_host(list.as_str());
        return Ok(asset(address_of(f, host.as_str(), topic.as_str()), "topic"));
    }
    let authority = authority_of(props);
    let at = authority.as_str();
    if let Some(index) = property(props, "index") {
        return Ok(asset(address_of(f, at, index.as_str()), "index"));
    }
    let database = property(props, "database");
    if let Some(collection) = property(props, "collection") {
        let inside = glue2(qualifier_of(&database).as_str(), collection.as_str());
        return Ok(asset(address_of(f, at, inside.as_str()), "collection"));
    }
    if let Some(table) = property_or(property(props, "tableName"), props, "table") {
        let schema = property(props, "schema");
        let inside = glue3(
            qualifier_of(&database).as_str(),
            qualifier_of(&schema).as_str(),
            table.as_str(),
        );
        return Ok(asset(address_of(f, at, inside.as_str()), "table"));
    }
    if let Some(object) = property_or(property(props, "object"), props, "objectName") {
        return Ok(asset(address_of(f, at, object.as_str()), "object"));
    }
    if let Some(url) = property(props, "url") {
        let head = take_before(url.as_str(), '?');
        return Ok(asset(strip_back(head.as_str(), '/'), "api"));
    }
    if let Some(d) = database {
        return Ok(asset(address_of(f, at, d.as_str()), "database"));
    }
    if !at.is_empty() {
        return Ok(asset(with_scheme(f, at), "database"));
    }
    let named = property(props, "account");
    let named = property_or(named, props, "project");
    let named = property_or(named, props, "workspace");
    let named = property_or(named, props, "repo");
    let named = property_or(named, props, "indexHost");
    let named = property_or(named, props, "contactPoints");
    assert(text_opt(named) == service(props@));
    if let Some(s) = named {
        let host = first_host(s.as_str());
        return Ok(asset(with_scheme(f, host.as_str()), "service"));
    }
    Err(
        glue3(
            "no target property on ",
            component_id,
            "; expected one of path, bucket+key, topic,          index, collection, tableName, object, url or database",
        ),
    )
}

proof fn lemma_family(head: Seq<char>, rest: Seq<char>)
    requires
        !head.contains('.'),
    ensures
        family(head + seq!['.'] + rest) == split(rest, '.')[0],
    decreases head.len(),
{
    let s = head + seq!['.'] + rest;
    lemma_find(s, '.');
    let i = find(s, '.');
    assert(s[head.len() as int] == '.');
    assert(i == head.len()) by {
        if i < head.len() {
            assert(s[i] == head[i]);
        }
    }
    assert(s.skip(i + 1) == rest);
    assert(split(s, '.') == seq![s.take(i)] + split(rest, '.'));
    assert(split(rest, '.').len() > 0);
}

/// A reader and a writer of one connector give the same name and kind to the
/// same properties.
pub proof fn law_named_alike_from_either_end(rest: Seq<char>, props: Doc)
    ensures
        target("src."@ + rest, props) == target("snk."@ + rest, props),
{
    reveal_strlit("src.");
    reveal_strlit("snk.");
    let src = seq!['s', 'r', 'c'];
    let snk = seq!['s', 'n', 'k'];
    assert("src."@ + rest == src + seq!['.'] + rest);
    assert("snk."@ + rest == snk + seq!['.'] + rest);
    lemma_family(src, rest);
    lemma_family(snk, rest);
}

/// A path names the same file whichever way its slashes lean.
pub proof fn law_slashes_agree(path: Seq<char>)
    ensures
        normalised(swapped(path, '\\', '/')) == normalised(path),
{
    assert(swapped(swapped(path, '\\', '/'), '\\', '/') == swapped(path, '\\', '/'));
}

/// A path names the same file whichever case its drive letter is in.
pub proof fn law_drive_letters_agree(drive: char, rest: Seq<char>)
    requires
        is_ascii_letter(drive),
    ensures
        normalised(seq![drive, ':'] + rest) == normalised(seq![lower(drive), ':'] + rest),
{
    let a = swapped(seq![drive, ':'] + rest, '\\', '/');
    let b = swapped(seq![lower(drive), ':'] + rest, '\\', '/');
    assert(a[0] == drive && a[1] == ':');
    assert(b[0] == lower(drive) && b[1] == ':');
    assert(lower(lower(drive)) == lower(drive));
    assert(a.update(0, lower(a[0])) == b.update(0, lower(b[0])));
}

/// A normalised path stays as it is when it is normalised again.
pub proof fn law_normalised_once_is_enough(path: Seq<char>)
    ensures
        normalised(normalised(path)) == normalised(path),
{
    let u = swapped(path, '\\', '/');
    let n = normalised(path);
    assert(swapped(n, '\\', '/') == n);
    if u.len() >= 2 && u[1] == ':' && is_ascii_letter(u[0]) {
        assert(lower(lower(u[0])) == lower(u[0]));
        assert(n.update(0, lower(n[0])) == n);
    }
}

/// One broker list names the same cluster as the first broker in it.
pub proof fn law_first_broker_names_the_cluster(host: Seq<char>, others: Seq<char>)
    requires
        !host.contains(','),
    ensures
        leading_host(host + ","@ + others) == leading_host(host),
{
    reveal_strlit(",");
    let s = host + ","@ + others;
    lemma_find(s, ',');
    lemma_find(host, ',');
    let i = find(s, ',');
    assert(s[host.len() as int] == ',');
    assert(i == host.len()) by {
        if i < host.len() {
            assert(s[i] == host[i]);
        }
    }
    assert(s.take(i) == host);
    assert(find(host, ',') == host.len()) by {
        if find(host, ',') < host.len() {
            assert(host[find(host, ',')] == ',');
        }
    }
    assert(host.take(host.len() as int) == host);
}

/// The query string of an endpoint is no part of its name.
pub proof fn law_query_strings_are_dropped(url: Seq<char>, query: Seq<char>)
    requires
        !url.contains('?'),
    ensures
        before_first(url + "?"@ + query, '?') == url,
{
    reveal_strlit("?");
    let s = url + "?"@ + query;
    lemma_find(s, '?');
    let i = find(s, '?');
    assert(s[url.len() as int] == '?');
    assert(i == url.len()) by {
        if i < url.len() {
            assert(s[i] == url[i]);
        }
    }
    assert(s.take(i) == url);
}

/// A name inside a server is the server, a slash and the name: one with a scheme
/// of its own keeps it, another gets the family's; with no server the family's
/// scheme stands alone before the name. Slashes behind the server count for
/// nothing.
pub proof fn law_an_address_names_the_server(f: Seq<char>, at: Seq<char>, tail: Seq<char>)
    ensures
        at.len() > 0 && at.last() != '/' && mentions(at, "://"@) ==> address(f, at, tail) == at + "/"@
            + tail && prefixed(f, at) == at,
        at.len() > 0 && at.last() != '/' && !mentions(at, "://"@) ==> address(f, at, tail) == f
            + "://"@ + at + "/"@ + tail && prefixed(f, at) == f + "://"@ + at,
        address(f, Seq::empty(), tail) == f + "://"@ + tail,
        at.len() > 0 && at.last() != '/' && mentions(at, "://"@) ==> address(f, at + "/"@, tail) == at
            + "/"@ + tail,
{
    reveal_strlit("://");
    reveal_strlit("/");
    assert("://"@.len() == 3 && "://"@[2] == '/');
    if at.len() > 0 && at.last() != '/' {
        let base = if mentions(at, "://"@) {
            at
        } else {
            f + "://"@ + at
        };
        assert(base.last() == at.last());
        if ends(base, "://"@) {
            assert(base.skip(base.len() - 3)[2] == base.last());
        }
        assert(drop_back(base, '/') == base);
        if mentions(at, "://"@) {
            let more = at + "/"@;
            let i = choose|i: int| stands_at(at, "://"@, i);
            assert(more.subrange(i, i + 3) == at.subrange(i, i + 3));
            assert(stands_at(more, "://"@, i));
            assert(more.drop_last() == at);
            assert(drop_back(more, '/') == drop_back(at, '/'));
        }
    }
    let none = Seq::<char>::empty();
    assert(!mentions(none, "://"@)) by {
        if mentions(none, "://"@) {
            let i = choose|i: int| stands_at(none, "://"@, i);
        }
    }
    let base = f + "://"@ + none;
    assert(base == f + "://"@);
    assert(base.skip(base.len() - 3) == "://"@);
}

/// Where the server is: the first of `host`, `endpoint`, `uri`,
/// `connectionString` and `connect` that is set, with the port behind a bare host
/// name, and without slashes at its end.
pub proof fn law_where_the_server_is(props: Doc, h: Seq<char>)
    requires
        h.len() > 0,
        h.last() != '/',
        ({
            ||| prop(props, "host"@) == Some(h)
            ||| prop(props, "host"@) is None && prop(props, "endpoint"@) == Some(h)
            ||| prop(props, "host"@) is None && prop(props, "endpoint"@) is None && prop(props, "uri"@)
                == Some(h)
            ||| prop(props, "host"@) is None && prop(props, "endpoint"@) is None && prop(
                props,
                "uri"@,
            ) is None && prop(props, "connectionString"@) == Some(h)
            ||| prop(props, "host"@) is None && prop(props, "endpoint"@) is None && prop(
                props,
                "uri"@,
            ) is None && prop(props, "connectionString"@) is None && prop(props, "connect"@) == Some(h)
        }),
    ensures
        prop(props, "port"@) is None ==> authority(props) == h,
        mentions(h, "://"@) || h.contains(':') ==> authority(props) == h,
        !mentions(h, "://"@) && !h.contains(':') ==> (prop(props, "port"@) matches Some(p) ==> authority(
            props,
        ) == h + ":"@ + p),
{
    assert(drop_back(h, '/') == h);
}

/// With none of these set there is no server.
pub proof fn law_no_server(props: Doc)
    requires
        prop(props, "host"@) is None,
        prop(props, "endpoint"@) is None,
        prop(props, "uri"@) is None,
        prop(props, "connectionString"@) is None,
        prop(props, "connect"@) is None,
    ensures
        authority(props).len() == 0,
{
}

/// A property is what its text says without the blanks round it, and one that is
/// blank, no text, or not there is none.
pub proof fn law_what_a_property_says(m: Seq<(Seq<char>, Doc)>, k: Seq<char>, t: Seq<char>)
    ensures
        member(m, k) == Some(Doc::Text(t)) && trimmed(t).len() > 0 ==> prop(Doc::Object(m), k) == Some(
            trimmed(t),
        ),
        member(m, k) == Some(Doc::Text(t)) && trimmed(t).len() == 0 ==> prop(Doc::Object(m), k) is None,
        member(m, k) is None ==> prop(Doc::Object(m), k) is None,
        member(m, k) matches Some(d) ==> d !is Text ==> prop(Doc::Object(m), k) is None,
        prop(Doc::Null, k) is None,
{
}

/// The family is what stands behind the first dot of a component, up to the next.
pub proof fn law_what_the_family_is(head: Seq<char>, f: Seq<char>, rest: Seq<char>)
    requires
        !head.contains('.'),
        !f.contains('.'),
    ensures
        family(head + seq!['.'] + f) == f,
        family(head + seq!['.'] + (f + seq!['.'] + rest)) == f,
        family(head) == "duckle"@,
{
    lemma_family(head, f);
    lemma_find(f, '.');
    assert(split(f, '.') == seq![f]);
    let more = f + seq!['.'] + rest;
    lemma_family(head, more);
    lemma_find(more, '.');
    let i = find(more, '.');
    assert(more[f.len() as int] == '.');
    assert(i == f.len()) by {
        if i < f.len() {
            assert(more[i] == f[i]);
        }
    }
    assert(more.take(i) == f);
    assert(split(more, '.')[0] == f);
    lemma_find(head, '.');
    assert(split(head, '.') == seq![head]);
}

/// A path names what it says, with forward slashes and a small drive letter; with
/// a scheme it is an object, without one a file. It comes before anything else.
pub proof fn law_a_path_names_itself(component: Seq<char>, props: Doc, path: Seq<char>, i: int)
    requires
        prop(props, "path"@) == Some(path),
    ensures
        target(component, props) is Some,
        ({
            let (id, kind) = target(component, props)->0;
            &&& id.len() == path.len()
            &&& kind == (if mentions(path, "://"@) {
                "object"@
            } else {
                "file"@
            })
            &&& 0 < i < path.len() ==> id[i] == (if path[i] == '\\' {
                '/'
            } else {
                path[i]
            })
            &&& path.len() >= 2 && path[1] == ':' && 'A' <= path[0] <= 'Z' ==> id[0] as u32
                == path[0] as u32 + 32
            &&& path.len() >= 2 && path[1] != ':' && path[0] != '\\' ==> id[0] == path[0]
            &&& path.len() >= 1 && path[0] == '\\' ==> id[0] == '/'
            &&& path.len() >= 1 && !('A' <= path[0] <= 'Z') && path[0] != '\\' ==> id[0] == path[0]
        }),
{
}

/// An object in a bucket is named by the bucket and its key.
pub proof fn law_an_object_is_named_by_its_bucket(
    component: Seq<char>,
    props: Doc,
    bucket: Seq<char>,
    key: Seq<char>,
)
    requires
        prop(props, "path"@) is None,
        prop(props, "bucket"@) == Some(bucket),
        prop(props, "key"@) == Some(key),
        bucket.len() > 0 && bucket.last() != '/',
        !mentions(bucket, "://"@),
        key.len() > 0 && key[0] != '/',
    ensures
        target(component, props) == Some(
            (family(component) + "://"@ + bucket + "/"@ + key, "object"@),
        ),
{
    law_an_address_names_the_server(family(component), bucket, key);
    assert(drop_front(key, '/') == key);
}

/// A topic is named by the first of its brokers and its own name.
pub proof fn law_a_topic_is_named_by_its_broker(
    component: Seq<char>,
    props: Doc,
    brokers: Seq<char>,
    topic: Seq<char>,
)
    requires
        prop(props, "path"@) is None,
        prop(props, "bucket"@) is None || prop(props, "key"@) is None,
        prop(props, "brokers"@) == Some(brokers) || (prop(props, "brokers"@) is None && prop(
            props,
            "contactPoints"@,
        ) == Some(brokers)),
        prop(props, "topic"@) == Some(topic),
        leading_host(brokers).len() > 0 && leading_host(brokers).last() != '/',
        !mentions(leading_host(brokers), "://"@),
    ensures
        target(component, props) == Some(
            (family(component) + "://"@ + leading_host(brokers) + "/"@ + topic, "topic"@),
        ),
{
    law_an_address_names_the_server(family(component), leading_host(brokers), topic);
}

/// An index is named by its server and its own name.
pub proof fn law_an_index_is_named_by_its_server(component: Seq<char>, props: Doc, index: Seq<char>)
    requires
        prop(props, "path"@) is None,
        prop(props, "bucket"@) is None || prop(props, "key"@) is None,
        prop(props, "topic"@) is None || (prop(props, "brokers"@) is None && prop(
            props,
            "contactPoints"@,
        ) is None),
        prop(props, "index"@) == Some(index),
    ensures
        ({
            let f = family(component);
            let at = authority(props);
            &&& at.len() > 0 && at.last() != '/' && mentions(at, "://"@) ==> target(component, props)
                == Some((at + "/"@ + index, "index"@))
            &&& at.len() > 0 && at.last() != '/' && !mentions(at, "://"@) ==> target(component, props)
                == Some((f + "://"@ + at + "/"@ + index, "index"@))
            &&& at.len() == 0 ==> target(component, props) == Some((f + "://"@ + index, "index"@))
        }),
{
    let at = authority(props);
    law_an_address_names_the_server(family(component), at, index);
    if at.len() == 0 {
        assert(at == Seq::<char>::empty());
    }
}

/// A collection is named by its server, its database and its own name.
pub proof fn law_a_collection_is_named_by_its_server(component: Seq<char>, props: Doc, collection: Seq<char>, inside: Seq<char>)
    requires
        prop(props, "path"@) is None,
        prop(props, "bucket"@) is None || prop(props, "key"@) is None,
        prop(props, "topic"@) is None || (prop(props, "brokers"@) is None && prop(
            props,
            "contactPoints"@,
        ) is None),
        prop(props, "index"@) is None,
        prop(props, "collection"@) == Some(collection),
        inside == (match prop(props, "database"@) {
                Some(d) => d + "."@,
                None => Seq::empty(),
            }) + collection,
    ensures
        ({
            let f = family(component);
            let at = authority(props);
            &&& at.len() > 0 && at.last() != '/' && mentions(at, "://"@) ==> target(component, props)
                == Some((at + "/"@ + inside, "collection"@))
            &&& at.len() > 0 && at.last() != '/' && !mentions(at, "://"@) ==> target(component, props)
                == Some((f + "://"@ + at + "/"@ + inside, "collection"@))
            &&& at.len() == 0 ==> target(component, props) == Some((f + "://"@ + inside, "collection"@))
        }),
{
    let at = authority(props);
    law_an_address_names_the_server(family(component), at, inside);
    if at.len() == 0 {
        assert(at == Seq::<char>::empty());
    }
}

/// A table is named by its server, its database, its schema and its own name.
pub proof fn law_a_table_is_named_by_its_server(component: Seq<char>, props: Doc, table: Seq<char>, inside: Seq<char>)
    requires
        prop(props, "path"@) is None,
        prop(props, "bucket"@) is None || prop(props, "key"@) is None,
        prop(props, "topic"@) is None || (prop(props, "brokers"@) is None && prop(
            props,
            "contactPoints"@,
        ) is None),
        prop(props, "index"@) is None,
        prop(props, "collection"@) is None,
        prop(props, "tableName"@) == Some(table) || (prop(props, "tableName"@) is None && prop(
            props,
            "table"@,
        ) == Some(table)),
        inside == (match prop(props, "database"@) {
                Some(d) => d + "."@,
                None => Seq::empty(),
            }) + (match prop(props, "schema"@) {
                Some(d) => d + "."@,
                None => Seq::empty(),
            }) + table,
    ensures
        ({
            let f = family(component);
            let at = authority(props);
            &&& at.len() > 0 && at.last() != '/' && mentions(at, "://"@) ==> target(component, props)
                == Some((at + "/"@ + inside, "table"@))
            &&& at.len() > 0 && at.last() != '/' && !mentions(at, "://"@) ==> target(component, props)
                == Some((f + "://"@ + at + "/"@ + inside, "table"@))
            &&& at.len() == 0 ==> target(component, props) == Some((f + "://"@ + inside, "table"@))
        }),
{
    let at = authority(props);
    law_an_address_names_the_server(family(component), at, inside);
    if at.len() == 0 {
        assert(at == Seq::<char>::empty());
    }
}

/// An object of a service is named by the server and its own name.
pub proof fn law_an_object_is_named_by_its_server(component: Seq<char>, props: Doc, object: Seq<char>)
    requires
        prop(props, "path"@) is None,
        prop(props, "bucket"@) is None || prop(props, "key"@) is None,
        prop(props, "topic"@) is None || (prop(props, "brokers"@) is None && prop(
            props,
            "contactPoints"@,
        ) is None),
        prop(props, "index"@) is None,
        prop(props, "collection"@) is None,
        prop(props, "tableName"@) is None,
        prop(props, "table"@) is None,
        prop(props, "object"@) == Some(object) || (prop(props, "object"@) is None && prop(
            props,
            "objectName"@,
        ) == Some(object)),
    ensures
        ({
            let f = family(component);
            let at = authority(props);
            &&& at.len() > 0 && at.last() != '/' && mentions(at, "://"@) ==> target(component, props)
                == Some((at + "/"@ + object, "object"@))
            &&& at.len() > 0 && at.last() != '/' && !mentions(at, "://"@) ==> target(component, props)
                == Some((f + "://"@ + at + "/"@ + object, "object"@))
            &&& at.len() == 0 ==> target(component, props) == Some((f + "://"@ + object, "object"@))
        }),
{
    let at = authority(props);
    law_an_address_names_the_server(family(component), at, object);
    if at.len() == 0 {
        assert(at == Seq::<char>::empty());
    }
}

/// A whole database is named by its server and its own name.
pub proof fn law_a_database_is_named_by_its_server(component: Seq<char>, props: Doc, database: Seq<char>)
    requires
        prop(props, "path"@) is None,
        prop(props, "bucket"@) is None || prop(props, "key"@) is None,
        prop(props, "topic"@) is None || (prop(props, "brokers"@) is None && prop(
            props,
            "contactPoints"@,
        ) is None),
        prop(props, "index"@) is None,
        prop(props, "collection"@) is None,
        prop(props, "tableName"@) is None,
        prop(props, "table"@) is None,
        prop(props, "object"@) is None,
        prop(props, "objectName"@) is None,
        prop(props, "url"@) is None,
        prop(props, "database"@) == Some(database),
    ensures
        ({
            let f = family(component);
            let at = authority(props);
            &&& at.len() > 0 && at.last() != '/' && mentions(at, "://"@) ==> target(component, props)
                == Some((at + "/"@ + database, "database"@))
            &&& at.len() > 0 && at.last() != '/' && !mentions(at, "://"@) ==> target(component, props)
                == Some((f + "://"@ + at + "/"@ + database, "database"@))
            &&& at.len() == 0 ==> target(component, props) == Some((f + "://"@ + database, "database"@))
        }),
{
    let at = authority(props);
    law_an_address_names_the_server(family(component), at, database);
    if at.len() == 0 {
        assert(at == Seq::<char>::empty());
    }
}

/// An endpoint is named by its address without the query string and without
/// slashes at its end.
pub proof fn law_an_endpoint_names_itself(component: Seq<char>, props: Doc, url: Seq<char>, query: Seq<char>)
    requires
        prop(props, "path"@) is None,
        prop(props, "bucket"@) is None || prop(props, "key"@) is None,
        prop(props, "topic"@) is None || (prop(props, "brokers"@) is None && prop(
            props,
            "contactPoints"@,
        ) is None),
        prop(props, "index"@) is None,
        prop(props, "collection"@) is None,
        prop(props, "tableName"@) is None,
        prop(props, "table"@) is None,
        prop(props, "object"@) is None,
        prop(props, "objectName"@) is None,
        url.len() > 0 && url.last() != '/' && !url.contains('?'),
        prop(props, "url"@) == Some(url) || prop(props, "url"@) == Some(url + "?"@ + query) || prop(
            props,
            "url"@,
        ) == Some(url + "/"@),
    ensures
        target(component, props) == Some((url, "api"@)),
{
    reveal_strlit("/");
    law_query_strings_are_dropped(url, query);
    lemma_find(url, '?');
    assert(url.take(url.len() as int) == url);
    assert(before_first(url, '?') == url);
    let more = url + "/"@;
    lemma_find(more, '?');
    assert(!more.contains('?')) by {
        if more.contains('?') {
            let k = choose|k: int| 0 <= k < more.len() && more[k] == '?';
            assert(url[k] == '?');
        }
    }
    assert(more.take(more.len() as int) == more);
    assert(more.drop_last() == url);
    assert(drop_back(more, '/') == drop_back(url, '/'));
}

/// With nothing to name inside it, a server is named by itself.
pub proof fn law_a_bare_server_names_itself(component: Seq<char>, props: Doc)
    requires
        prop(props, "path"@) is None,
        prop(props, "bucket"@) is None || prop(props, "key"@) is None,
        prop(props, "topic"@) is None || (prop(props, "brokers"@) is None && prop(
            props,
            "contactPoints"@,
        ) is None),
        prop(props, "index"@) is None,
        prop(props, "collection"@) is None,
        prop(props, "tableName"@) is None,
        prop(props, "table"@) is None,
        prop(props, "object"@) is None,
        prop(props, "objectName"@) is None,
        prop(props, "url"@) is None,
        prop(props, "database"@) is None,
        authority(props).len() > 0 && authority(props).last() != '/',
    ensures
        mentions(authority(props), "://"@) ==> target(component, props) == Some(
            (authority(props), "database"@),
        ),
        !mentions(authority(props), "://"@) ==> target(component, props) == Some(
            (family(component) + "://"@ + authority(props), "database"@),
        ),
{
    law_an_address_names_the_server(family(component), authority(props), Seq::empty());
}

/// With no server either, a whole account, project, workspace, repository, index
/// host or contact point is named, in this order; and with none of them nothing
/// is.
pub proof fn law_a_service_is_named_last(component: Seq<char>, props: Doc, named: Seq<char>)
    requires
        prop(props, "path"@) is None,
        prop(props, "bucket"@) is None || prop(props, "key"@) is None,
        prop(props, "topic"@) is None || (prop(props, "brokers"@) is None && prop(
            props,
            "contactPoints"@,
        ) is None),
        prop(props, "index"@) is None,
        prop(props, "collection"@) is None,
        prop(props, "tableName"@) is None,
        prop(props, "table"@) is None,
        prop(props, "object"@) is None,
        prop(props, "objectName"@) is None,
        prop(props, "url"@) is None,
        prop(props, "database"@) is None,
        authority(props).len() == 0,
        leading_host(named).len() > 0 && leading_host(named).last() != '/',
        !mentions(leading_host(named), "://"@),
    ensures
        ({
            let all = seq![
                "account"@,
                "project"@,
                "workspace"@,
                "repo"@,
                "indexHost"@,
                "contactPoints"@,
            ];
            &&& forall|i: int|
                #![trigger all[i]]
                0 <= i < 6 && prop(props, all[i]) == Some(named) && (forall|j: int|
                    #![trigger all[j]]
                    0 <= j < i ==> prop(props, all[j]) is None) ==> target(component, props) == Some(
                    (family(component) + "://"@ + leading_host(named), "service"@),
                )
            &&& (forall|i: int| #![trigger all[i]] 0 <= i < 6 ==> prop(props, all[i]) is None)
                ==> target(component, props) is None
        }),
{
    let all = seq![
        "account"@,
        "project"@,
        "workspace"@,
        "repo"@,
        "indexHost"@,
        "contactPoints"@,
    ];
    law_an_address_names_the_server(family(component), leading_host(named), Seq::empty());
    assert(all[0] == "account"@ && all[1] == "project"@ && all[2] == "workspace"@);
    assert(all[3] == "repo"@ && all[4] == "indexHost"@ && all[5] == "contactPoints"@);
}

/// Indexes of one name on two servers are two things.
pub proof fn law_servers_keep_their_indexes_apart(
    component: Seq<char>,
    a: Doc,
    b: Doc,
    index: Seq<char>,
)
    requires
        prop(a, "path"@) is None && prop(b, "path"@) is None,
        prop(a, "bucket"@) is None && prop(b, "bucket"@) is None,
        prop(a, "topic"@) is None && prop(b, "topic"@) is None,
        prop(a, "index"@) == Some(index) && prop(b, "index"@) == Some(index),
        authority(a) != authority(b),
        authority(a).len() > 0 && authority(a).last() != '/' && mentions(authority(a), "://"@),
        authority(b).len() > 0 && authority(b).last() != '/' && mentions(authority(b), "://"@),
    ensures
        (target(component, a)->0).0 != (target(component, b)->0).0,
{
    law_an_index_is_named_by_its_server(component, a, index);
    law_an_index_is_named_by_its_server(component, b, index);
    reveal_strlit("/");
    let x = authority(a) + "/"@ + index;
    let y = authority(b) + "/"@ + index;
    assert("/"@.len() == 1);
    assert(x.len() == authority(a).len() + 1 + index.len());
    assert(y.len() == authority(b).len() + 1 + index.len());
    if x == y {
        assert(authority(a).len() == authority(b).len());
        assert(authority(a) == x.take(authority(a).len() as int));
        assert(authority(b) == y.take(authority(b).len() as int));
    }
}

/// A list of hosts is named by the first, without the blanks round it.
pub proof fn law_the_first_host_leads(host: Seq<char>, others: Seq<char>)
    requires
        !host.contains(','),
    ensures
        leading_host(host) == trimmed(host),
        leading_host(host + ","@ + others) == trimmed(host),
{
    law_first_broker_names_the_cluster(host, others);
    lemma_find(host, ',');
    assert(host.take(host.len() as int) == host);
}

} // verus!

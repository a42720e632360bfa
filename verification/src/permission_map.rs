//! The map from requests (a method and an endpoint) to the permissions that guard them.
use vstd::prelude::*;
use vstd::string::*;
use crate::authorization::Permission;
use crate::method::Method;
use crate::text::{is_first_index, lemma_split_none, lemma_split_once_at, split_all, to_owned_string};

verus! {

/// One segment of a registered endpoint.
pub enum PathComponentView {
    /// A segment that must be matched exactly.
    Text(Seq<char>),
    /// A segment written `{name}`, which matches any segment.
    Variable,
}

/// `endpoint` without one leading `/`, where it has one.
pub open spec fn strip_root(endpoint: Seq<char>) -> Seq<char> {
    if endpoint.len() > 0 && endpoint[0] == '/' {
        endpoint.skip(1)
    } else {
        endpoint
    }
}

/// The segments of an endpoint: the text after a leading `/`, cut at every `/`.
pub open spec fn path_segments(endpoint: Seq<char>) -> Seq<Seq<char>> {
    split_all(strip_root(endpoint), '/')
}

/// A registered segment: one that starts with `{` and ends with `}` is a variable.
pub open spec fn component_of(segment: Seq<char>) -> PathComponentView {
    if segment.len() > 0 && segment[0] == '{' && segment.last() == '}' {
        PathComponentView::Variable
    } else {
        PathComponentView::Text(segment)
    }
}

/// The pattern that an endpoint is registered as.
pub open spec fn path_pattern(endpoint: Seq<char>) -> Seq<PathComponentView> {
    path_segments(endpoint).map_values(|segment: Seq<char>| component_of(segment))
}

/// Whether a registered segment accepts a segment of a request.
pub open spec fn component_accepts(component: PathComponentView, segment: Seq<char>) -> bool {
    match component {
        PathComponentView::Variable => true,
        PathComponentView::Text(text) => text == segment,
    }
}

/// Whether a pattern accepts the segments of a request: as many segments, each accepted.
pub open spec fn pattern_matches(pattern: Seq<PathComponentView>, segments: Seq<Seq<char>>) -> bool {
    &&& pattern.len() == segments.len()
    &&& forall|i: int| 0 <= i < pattern.len() ==> component_accepts(pattern[i], segments[i])
}

/// An entry of the map: the method, the endpoint pattern and the permission.
pub type PermissionEntry = (Method, Seq<PathComponentView>, Permission);

/// The entry that registering `permission` for `method` and `endpoint` adds.
pub open spec fn entry_for(method: Method, endpoint: Seq<char>, permission: Permission) -> PermissionEntry {
    (method, path_pattern(endpoint), permission)
}

/// Whether an entry applies to a request.
pub open spec fn entry_matches(entry: PermissionEntry, method: Method, endpoint: Seq<char>) -> bool {
    &&& entry.0 == method
    &&& pattern_matches(entry.1, path_segments(endpoint))
}

/// The permission of the first entry that applies to a request, if any does.
pub open spec fn permission_for(entries: Seq<PermissionEntry>, method: Method, endpoint: Seq<char>) -> Option<Permission>
    decreases entries.len(),
{
    if entries.len() == 0 {
        None
    } else if entry_matches(entries[0], method, endpoint) {
        Some(entries[0].2)
    } else {
        permission_for(entries.drop_first(), method, endpoint)
    }
}

/// Entries that do not apply can be passed over.
proof fn lemma_permission_for_skip(entries: Seq<PermissionEntry>, method: Method, endpoint: Seq<char>, i: int)
    requires
        0 <= i <= entries.len(),
        forall|k: int| 0 <= k < i ==> !entry_matches(entries[k], method, endpoint),
    ensures
        permission_for(entries, method, endpoint) == permission_for(entries.skip(i), method, endpoint),
    decreases i,
{
    if i > 0 {
        lemma_permission_for_skip(entries, method, endpoint, i - 1);
        let rest = entries.skip(i - 1);
        assert(rest[0] == entries[i - 1]);
        assert(rest.drop_first() =~= entries.skip(i));
    } else {
        assert(entries.skip(0) =~= entries);
    }
}

/// A lookup after a registration gives what an earlier entry gives, and otherwise the new
/// entry's permission where the new entry applies.
pub proof fn lemma_permission_for_push(entries: Seq<PermissionEntry>, entry: PermissionEntry, method: Method, endpoint: Seq<char>)
    ensures
        permission_for(entries.push(entry), method, endpoint) == (match permission_for(entries, method, endpoint) {
            Some(p) => Some(p),
            None => if entry_matches(entry, method, endpoint) {
                Some(entry.2)
            } else {
                None
            },
        }),
    decreases entries.len(),
{
    if entries.len() == 0 {
        assert(entries.push(entry)[0] == entry);
        assert(entries.push(entry).drop_first() =~= Seq::<PermissionEntry>::empty());
        assert(permission_for(Seq::<PermissionEntry>::empty(), method, endpoint) is None);
    } else {
        assert(entries.push(entry)[0] == entries[0]);
        assert(entries.push(entry).drop_first() =~= entries.drop_first().push(entry));
        lemma_permission_for_push(entries.drop_first(), entry, method, endpoint);
    }
}

/// Whether the registration `entry` is for `method` and has, segment for segment, the
/// request's path: as many segments, each a `{name}` variable or the very text of the
/// request's segment there.
pub open spec fn registered_for(entry: PermissionEntry, method: Method, segments: Seq<Seq<char>>) -> bool {
    &&& entry.0 == method
    &&& entry.1.len() == segments.len()
    &&& forall|j: int|
        0 <= j < entry.1.len() ==> (#[trigger] entry.1[j] is Variable || entry.1[j]
            == PathComponentView::Text(segments[j]))
}

proof fn lemma_matches_iff_registered_for(entry: PermissionEntry, method: Method, endpoint: Seq<char>)
    ensures
        entry_matches(entry, method, endpoint) <==> registered_for(entry, method, path_segments(endpoint)),
{
    let segments = path_segments(endpoint);
    if entry_matches(entry, method, endpoint) {
        assert forall|j: int| 0 <= j < entry.1.len() implies (#[trigger] entry.1[j] is Variable || entry.1[j]
            == PathComponentView::Text(segments[j])) by {
            assert(component_accepts(entry.1[j], segments[j]));
        }
    }
    if registered_for(entry, method, segments) {
        assert forall|j: int| 0 <= j < entry.1.len() implies component_accepts(entry.1[j], segments[j]) by {
            assert(entry.1[j] is Variable || entry.1[j] == PathComponentView::Text(segments[j]));
        }
    }
}

/// A lookup finds the permission of the first registration for the request's own method
/// whose pattern has the request's segments (text segments equal, `{name}` segments any);
/// where there is no such registration, it finds none. In particular a lookup never gives
/// a permission registered for another method, and a text segment accepts only itself.
pub proof fn lemma_lookup_finds_first_registration(entries: Seq<PermissionEntry>, method: Method, endpoint: Seq<char>)
    ensures
        match permission_for(entries, method, endpoint) {
            Some(p) => exists|i: int|
                0 <= i < entries.len() && #[trigger] entries[i].2 == p
                    && registered_for(entries[i], method, path_segments(endpoint))
                    && forall|k: int| 0 <= k < i ==> !registered_for(#[trigger] entries[k], method, path_segments(endpoint)),
            None => forall|i: int| 0 <= i < entries.len() ==> !registered_for(#[trigger] entries[i], method, path_segments(endpoint)),
        },
    decreases entries.len(),
{
    let segments = path_segments(endpoint);
    if entries.len() > 0 {
        lemma_matches_iff_registered_for(entries[0], method, endpoint);
        let rest = entries.drop_first();
        lemma_lookup_finds_first_registration(rest, method, endpoint);
        if !entry_matches(entries[0], method, endpoint) {
            match permission_for(rest, method, endpoint) {
                Some(p) => {
                    let i = choose|i: int|
                        0 <= i < rest.len() && #[trigger] rest[i].2 == p
                            && registered_for(rest[i], method, segments)
                            && forall|k: int| 0 <= k < i ==> !registered_for(#[trigger] rest[k], method, segments);
                    assert(entries[i + 1] == rest[i]);
                    assert forall|k: int| 0 <= k < i + 1 implies !registered_for(#[trigger] entries[k], method, segments) by {
                        if k > 0 {
                            assert(entries[k] == rest[k - 1]);
                        }
                    }
                    assert(entries[i + 1].2 == p);
                },
                None => {
                    assert forall|i: int| 0 <= i < entries.len() implies !registered_for(#[trigger] entries[i], method, segments) by {
                        if i > 0 {
                            assert(entries[i] == rest[i - 1]);
                        }
                    }
                },
            }
        } else {
            assert(entries[0].2 == entries[0].2);
        }
    }
}

/// An endpoint's own pattern accepts the endpoint.
pub proof fn lemma_entry_matches_own_endpoint(method: Method, endpoint: Seq<char>, permission: Permission)
    ensures
        entry_matches(entry_for(method, endpoint, permission), method, endpoint),
{
    let segments = path_segments(endpoint);
    let pattern = path_pattern(endpoint);
    assert forall|i: int| 0 <= i < pattern.len() implies component_accepts(pattern[i], segments[i]) by {
        assert(pattern[i] == component_of(segments[i]));
    }
}

/// A registered segment.
enum PathComponent {
    Text(String),
    Variable,
}

impl View for PathComponent {
    type V = PathComponentView;

    closed spec fn view(&self) -> PathComponentView {
        match self {
            PathComponent::Text(t) => PathComponentView::Text(t@),
            PathComponent::Variable => PathComponentView::Variable,
        }
    }
}

impl PathComponent {
    /// The registered form of one segment.
    fn from_segment(segment: &str) -> (c: PathComponent)
        ensures
            c@ == component_of(segment@),
    {
        let n = segment.unicode_len();
        if n > 0 && segment.get_char(0) == '{' && segment.get_char(n - 1) == '}' {
            PathComponent::Variable
        } else {
            PathComponent::Text(to_owned_string(segment))
        }
    }

    /// Whether this registered segment accepts `segment`.
    fn accepts(&self, segment: &String) -> (r: bool)
        ensures
            r == component_accepts(self@, segment@),
    {
        match self {
            PathComponent::Variable => true,
            PathComponent::Text(text) => *text == *segment,
        }
    }
}

/// The segments of `endpoint`.
fn split_path(endpoint: &str) -> (segments: Vec<String>)
    ensures
        segments@.map_values(|s: String| s@) == path_segments(endpoint@),
{
    broadcast use vstd::string::group_string_axioms;
    let len = endpoint.unicode_len();
    let start: usize = if len > 0 && endpoint.get_char(0) == '/' { 1 } else { 0 };
    let t = endpoint.substring_char(start, len);
    assert(t@ == strip_root(endpoint@));
    let n = t.unicode_len();
    let mut segments: Vec<String> = Vec::new();
    let mut seg_start: usize = 0;
    let mut i: usize = 0;
    assert(t@.subrange(0, n as int) =~= t@);
    for ch in it: t.chars()
        invariant
            n == t@.len(),
            it.seq() == t@,
            i == it.index(),
            seg_start <= i <= n,
            forall|j: int| seg_start <= j < i ==> t@[j] != '/',
            segments@.map_values(|s: String| s@) + split_all(t@.subrange(seg_start as int, n as int), '/')
                == split_all(t@, '/'),
    {
        if ch == '/' {
            let ghost sub = t@.subrange(seg_start as int, n as int);
            let ghost k = i - seg_start;
            proof {
                assert(is_first_index(sub, '/', k));
                lemma_split_once_at(sub, '/', k);
                assert(sub.take(k) =~= t@.subrange(seg_start as int, i as int));
                assert(sub.skip(k + 1) =~= t@.subrange(i + 1, n as int));
            }
            let ghost before = segments@.map_values(|s: String| s@);
            let piece = to_owned_string(t.substring_char(seg_start, i));
            segments.push(piece);
            proof {
                assert(segments@.map_values(|s: String| s@) =~= before.push(
                    t@.subrange(seg_start as int, i as int),
                ));
                assert(before + split_all(sub, '/') == split_all(t@, '/'));
                assert(before + (seq![t@.subrange(seg_start as int, i as int)] + split_all(
                    t@.subrange(i + 1, n as int),
                    '/',
                )) =~= before.push(t@.subrange(seg_start as int, i as int)) + split_all(
                    t@.subrange(i + 1, n as int),
                    '/',
                ));
            }
            seg_start = i + 1;
        }
        i = i + 1;
    }
    let ghost sub = t@.subrange(seg_start as int, n as int);
    proof {
        assert(!sub.contains('/')) by {
            if sub.contains('/') {
                let k = choose|k: int| 0 <= k < sub.len() && sub[k] == '/';
                assert(t@[seg_start + k] == '/');
            }
        }
        lemma_split_none(sub, '/');
    }
    let ghost before = segments@.map_values(|s: String| s@);
    let last = to_owned_string(t.substring_char(seg_start, n));
    segments.push(last);
    assert(segments@.map_values(|s: String| s@) =~= before.push(sub));
    assert(before + seq![sub] =~= before.push(sub));
    segments
}

/// A method together with an endpoint pattern.
struct RequestDefinition {
    method: Method,
    path: Vec<PathComponent>,
}

impl RequestDefinition {
    closed spec fn pattern(&self) -> Seq<PathComponentView> {
        self.path@.map_values(|c: PathComponent| c@)
    }

    /// The definition that `endpoint` is registered as for `method`.
    fn new(method: Method, endpoint: &str) -> (d: RequestDefinition)
        ensures
            d.method == method,
            d.pattern() == path_pattern(endpoint@),
    {
        let segments = split_path(endpoint);
        let ghost views = segments@.map_values(|s: String| s@);
        let mut path: Vec<PathComponent> = Vec::new();
        let mut i: usize = 0;
        while i < segments.len()
            invariant
                i <= segments@.len(),
                views == segments@.map_values(|s: String| s@),
                path@.len() == i,
                forall|k: int| 0 <= k < i ==> path@[k]@ == component_of(views[k]),
            decreases segments@.len() - i,
        {
            let c = PathComponent::from_segment(segments[i].as_str());
            path.push(c);
            i = i + 1;
        }
        let d = RequestDefinition { method, path };
        assert(d.pattern() =~= path_pattern(endpoint@));
        d
    }

    /// Whether this definition applies to a request of `method` whose endpoint has
    /// `segments`.
    fn matches(&self, method: &Method, segments: &Vec<String>) -> (r: bool)
        ensures
            r == (self.method == *method && pattern_matches(
                self.pattern(),
                segments@.map_values(|s: String| s@),
            )),
    {
        if self.method != *method {
            return false;
        }
        if self.path.len() != segments.len() {
            return false;
        }
        let ghost pattern = self.pattern();
        let ghost views = segments@.map_values(|s: String| s@);
        let mut i: usize = 0;
        while i < self.path.len()
            invariant
                i <= self.path@.len(),
                self.path@.len() == segments@.len(),
                pattern == self.pattern(),
                views == segments@.map_values(|s: String| s@),
                forall|k: int| 0 <= k < i ==> component_accepts(pattern[k], views[k]),
            decreases self.path@.len() - i,
        {
            if !self.path[i].accepts(&segments[i]) {
                assert(pattern[i as int] == self.path@[i as int]@);
                assert(views[i as int] == segments@[i as int]@);
                return false;
            }
            assert(pattern[i as int] == self.path@[i as int]@);
            assert(views[i as int] == segments@[i as int]@);
            i = i + 1;
        }
        true
    }
}

/// The permissions that guard a REST API's endpoints, in the order they were registered.
pub struct PermissionMap {
    internal: Vec<(RequestDefinition, Permission)>,
}

impl View for PermissionMap {
    type V = Seq<PermissionEntry>;

    /// The entries, in the order they were registered.
    closed spec fn view(&self) -> Seq<PermissionEntry> {
        self.internal@.map_values(
            |e: (RequestDefinition, Permission)| (e.0.method, e.0.pattern(), e.1),
        )
    }
}

impl PermissionMap {
    /// An empty map.
    pub fn new() -> (map: PermissionMap)
        ensures
            map@ == Seq::<PermissionEntry>::empty(),
    {
        let map = PermissionMap { internal: Vec::new() };
        assert(map@ =~= Seq::<PermissionEntry>::empty());
        map
    }

    /// Registers `permission` for requests of `method` to `endpoint`. A segment of
    /// `endpoint` written `{name}` accepts any segment. An earlier registration that applies
    /// to a request is found before this one.
    pub fn add_permission(&mut self, method: Method, endpoint: &str, permission: Permission)
        ensures
            final(self)@ == old(self)@.push(entry_for(method, endpoint@, permission)),
    {
        let definition = RequestDefinition::new(method, endpoint);
        self.internal.push((definition, permission));
        assert(self@ =~= old(self)@.push(entry_for(method, endpoint@, permission)));
    }

    /// The permission of the first registration that applies to a request of `method` to
    /// `endpoint`, or `None` where none does.
    pub fn get_permission(&self, method: &Method, endpoint: &str) -> (r: Option<&Permission>)
        ensures
            match r {
                Some(p) => permission_for(self@, *method, endpoint@) == Some(*p),
                None => permission_for(self@, *method, endpoint@) is None,
            },
            match r {
                Some(p) => exists|i: int|
                    0 <= i < self@.len() && #[trigger] self@[i].2 == *p
                        && registered_for(self@[i], *method, path_segments(endpoint@))
                        && forall|k: int| 0 <= k < i ==> !registered_for(#[trigger] self@[k], *method, path_segments(endpoint@)),
                None => forall|i: int| 0 <= i < self@.len() ==> !registered_for(#[trigger] self@[i], *method, path_segments(endpoint@)),
            },
    {
        proof {
            lemma_lookup_finds_first_registration(self@, *method, endpoint@);
        }
        let segments = split_path(endpoint);
        let ghost entries = self@;
        let mut i: usize = 0;
        while i < self.internal.len()
            invariant
                i <= self.internal@.len(),
                entries == self@,
                entries.len() == self.internal@.len(),
                segments@.map_values(|s: String| s@) == path_segments(endpoint@),
                forall|k: int| 0 <= k < i ==> !entry_matches(entries[k], *method, endpoint@),
            decreases self.internal@.len() - i,
        {
            let entry = &self.internal[i];
            if entry.0.matches(method, &segments) {
                proof {
                    lemma_permission_for_skip(entries, *method, endpoint@, i as int);
                    assert(entries.skip(i as int)[0] == entries[i as int]);
                }
                return Some(&entry.1);
            }
            i = i + 1;
        }
        proof {
            lemma_permission_for_skip(entries, *method, endpoint@, i as int);
            assert(entries.skip(i as int) =~= Seq::<PermissionEntry>::empty());
        }
        None
    }
}

impl Default for PermissionMap {
    fn default() -> (map: PermissionMap)
        ensures
            map@ == Seq::<PermissionEntry>::empty(),
    {
        PermissionMap::new()
    }
}

/// A lookup of the request that was just registered, on a map where no earlier entry
/// applies to it, gives the permission registered.
pub proof fn lemma_lookup_after_add(entries: Seq<PermissionEntry>, method: Method, endpoint: Seq<char>, permission: Permission)
    requires
        permission_for(entries, method, endpoint) is None,
    ensures
        permission_for(entries.push(entry_for(method, endpoint, permission)), method, endpoint)
            == Some(permission),
{
    lemma_permission_for_push(entries, entry_for(method, endpoint, permission), method, endpoint);
    lemma_entry_matches_own_endpoint(method, endpoint, permission);
}

} // verus!

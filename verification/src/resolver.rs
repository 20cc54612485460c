//! External `$ref` resolution.
//!
//! [`optional_resolve`] lists the external references of the document when
//! `options.resolve` is set. Each names a file relative to `options.source` and a
//! fragment in it. Once that file is read, [`resolve_one`] resolves the requested
//! fragment, rewrites the target's own internal `$ref`s, and writes the result
//! back into the document. Repeated targets become `$ref`s to the first copy. The
//! inlined data may hold new external references, so a caller goes on until
//! none are left.

use vstd::prelude::*;

use crate::common;
use crate::error::S2OError;
use crate::inlining;
use crate::jptr;
use crate::json::{self, Json, Members, Text};
use crate::laws;
use crate::options::{Options, Settings};
use crate::recurse::{self, is_ref, recurse, RecurseState, Visitor};
use crate::text;
use crate::value::{JsonValue, Object};

verus! {

// --- external references ---------------------------------------------------

/// One external reference and the document paths that point at it.
#[derive(Debug)]
pub struct ExternalRef {
    /// The reference as it is written.
    pub reference: String,
    /// The containers of the reference in document order.
    pub paths: Vec<String>,
}

impl View for ExternalRef {
    type V = (Text, Seq<Text>);

    open spec fn view(&self) -> (Text, Seq<Text>) {
        (self.reference@, json::texts(self.paths@))
    }
}

/// The models of a sequence of references.
pub open spec fn externals(v: Seq<ExternalRef>) -> Seq<(Text, Seq<Text>)> {
    Seq::new(v.len(), |i: int| v[i]@)
}

/// The path without its last segment, which addresses the container.
pub open spec fn parent_path_of(path: Text) -> Text {
    match text::rfind_from(path, '/', path.len() as int) {
        Some(i) => if i > 0 {
            path.take(i)
        } else {
            path
        },
        None => path,
    }
}

/// Drop the last `/segment` of a recurse path to address the container.
pub fn parent_path(path: &str) -> (r: String)
    ensures
        r@ == parent_path_of(path@),
{
    match text::rfind(path, '/') {
        Some(i) => if i > 0 {
            text::take(path, i)
        } else {
            path.to_owned()
        },
        None => path.to_owned(),
    }
}

/// The references with one more path, under an equal reference at or after
/// position `i` or else as a new one.
pub open spec fn path_noted(refs: Seq<(Text, Seq<Text>)>, i: nat, r: Text, path: Text) -> Seq<
    (Text, Seq<Text>),
>
    decreases refs.len() - i,
{
    if i >= refs.len() {
        refs.push((r, seq![path]))
    } else if refs[i as int].0 == r {
        refs.update(i as int, (r, refs[i as int].1.push(path)))
    } else {
        path_noted(refs, i + 1, r, path)
    }
}

/// The external reference at `key`: a `$ref` that does not start with `#`.
pub open spec fn external_at(container: Json, key: Text) -> Option<Text> {
    if recurse::names_ref(container, key) && !text::starts(container.text_member(key)->0, "#"@) {
        container.text_member(key)
    } else {
        None
    }
}

/// The collection of external references.
pub struct RefScanner {
    refs: Vec<ExternalRef>,
}

impl RefScanner {
    /// Note one more path of a reference.
    fn note(&mut self, reference: &str, path: String)
        ensures
            externals(final(self).refs@) == path_noted(
                externals(old(self).refs@),
                0,
                reference@,
                path@,
            ),
    {
        let ghost all = externals(self.refs@);
        let mut i: usize = 0;
        while i < self.refs.len()
            invariant
                i <= self.refs@.len(),
                all == externals(self.refs@),
                all == externals(old(self).refs@),
                path_noted(all, 0, reference@, path@) == path_noted(
                    all,
                    i as nat,
                    reference@,
                    path@,
                ),
            decreases self.refs@.len() - i,
        {
            assert(all[i as int] == self.refs@[i as int]@);
            if *self.refs[i].reference.as_str() == *reference {
                let ghost before = json::texts(self.refs@[i as int].paths@);
                self.refs[i].paths.push(path);
                proof {
                    assert(json::texts(self.refs@[i as int].paths@) =~= before.push(path@));
                    assert(externals(self.refs@) =~= all.update(
                        i as int,
                        (reference@, before.push(path@)),
                    ));
                }
                return ;
            }
            i += 1;
        }
        let fresh = ExternalRef { reference: reference.to_owned(), paths: vec![path] };
        assert(json::texts(fresh.paths@) =~= seq![path@]);
        self.refs.push(fresh);
        assert(externals(self.refs@) =~= all.push((reference@, seq![path@])));
    }
}

impl Visitor for RefScanner {
    type State = Seq<(Text, Seq<Text>)>;

    closed spec fn state(&self) -> Seq<(Text, Seq<Text>)> {
        externals(self.refs@)
    }

    open spec fn visited(
        s: Seq<(Text, Seq<Text>)>,
        container: Json,
        key: Text,
        path: Text,
    ) -> (Seq<(Text, Seq<Text>)>, Json) {
        match external_at(container, key) {
            Some(r) => (path_noted(s, 0, r, parent_path_of(path)), container),
            None => (s, container),
        }
    }

    proof fn visit_is_bounded(
        s: Seq<(Text, Seq<Text>)>,
        container: Json,
        key: Text,
        path: Text,
    ) {
    }

    fn visit(&mut self, container: &mut JsonValue, key: &str, state: &RecurseState) {
        if is_ref(container, key) {
            if let Some(s) = container.get_str(key) {
                if !text::starts_with(s, "#") {
                    self.note(s, parent_path(state.path.as_str()));
                }
            }
        }
    }
}

/// The external references of a document in document order, each with the paths
/// that hold it.
pub open spec fn external_refs(openapi: Json) -> Seq<(Text, Seq<Text>)> {
    recurse::recursed::<RefScanner>(Seq::empty(), openapi, "#"@).0
}

/// Collect non-fragment `$ref` strings paired with the paths that hold them.
///
/// Paths are kept in document order. The first path becomes the attach point.
pub fn scan_external_refs(openapi: &JsonValue) -> (r: Vec<ExternalRef>)
    ensures
        externals(r@) == external_refs(openapi@),
{
    let mut doc = openapi.clone();
    let mut scanner = RefScanner { refs: Vec::new() };
    assert(externals(scanner.refs@) =~= Seq::empty());
    recurse(&mut doc, "#", &mut scanner);
    scanner.refs
}

/// The failure of a resolution that has no base.
pub open spec fn resolve_failure(o: Settings) -> Option<Text> {
    if o.resolve && o.source is None {
        Some("resolve requires options.source"@)
    } else {
        None
    }
}

/// The external references that are to be resolved.
pub open spec fn unresolved(o: Settings) -> Seq<(Text, Seq<Text>)> {
    if o.resolve {
        external_refs(o.openapi)
    } else {
        Seq::empty()
    }
}

/// List the external references to resolve, none unless `options.resolve` is set.
///
/// With resolve on it is an error to have no `options.source`.
pub fn optional_resolve(options: &Options) -> (r: Result<Vec<ExternalRef>, S2OError>)
    ensures
        match r {
            Ok(refs) => resolve_failure(options@) is None && externals(refs@) == unresolved(
                options@,
            ),
            Err(e) => resolve_failure(options@) == Some(e.message@),
        },
{
    if !options.resolve {
        let none: Vec<ExternalRef> = Vec::new();
        assert(externals(none@) =~= Seq::empty());
        return Ok(none);
    }
    if options.source.is_none() {
        return Err(S2OError::new("resolve requires options.source"));
    }
    Ok(scan_external_refs(&options.openapi))
}

// --- fragments -------------------------------------------------------------

/// A reference as its file part and its fragment without the leading `#`.
pub open spec fn fragment_split(reference: Text) -> (Text, Text) {
    match text::find_spec(reference, "#"@) {
        Some(i) => (reference.take(i), reference.skip(i + 1)),
        None => (reference, Seq::empty()),
    }
}

/// Split a reference into its file part and fragment (without the leading `#`).
pub fn split_fragment(reference: &str) -> (r: (String, String))
    ensures
        (r.0@, r.1@) == fragment_split(reference@),
{
    match text::find(reference, "#") {
        Some(i) => {
            proof {
                reveal_strlit("#");
            }
            let rest = text::skip(reference, i);
            assert(rest@.skip(1) =~= reference@.skip(i + 1));
            (text::take(reference, i), text::skip(rest.as_str(), 1))
        },
        None => {
            let none = String::new();
            assert(none@ =~= Seq::empty());
            (reference.to_owned(), none)
        },
    }
}

// --- paths -----------------------------------------------------------------

/// One segment of a file path.
#[derive(Debug)]
pub enum Segment {
    /// A root or a drive, which has no parent.
    Base(String),
    /// `..`
    Parent,
    /// `.`
    Current,
    /// The name of a directory or a file.
    Name(String),
}

/// The model of a [`Segment`].
pub enum Step {
    Base(Text),
    Parent,
    Current,
    Name(Text),
}

impl View for Segment {
    type V = Step;

    open spec fn view(&self) -> Step {
        match *self {
            Segment::Base(s) => Step::Base(s@),
            Segment::Parent => Step::Parent,
            Segment::Current => Step::Current,
            Segment::Name(s) => Step::Name(s@),
        }
    }
}

/// The models of a sequence of segments.
pub open spec fn steps(v: Seq<Segment>) -> Seq<Step> {
    Seq::new(v.len(), |i: int| v[i]@)
}

/// The path after the segments from position `i` on, where `..` takes back a name
/// and `.` stays.
pub open spec fn collapsed(path: Seq<Step>, i: nat, out: Seq<Step>) -> Seq<Step>
    decreases path.len() - i,
{
    if i >= path.len() {
        out
    } else {
        let next = match path[i as int] {
            Step::Parent => if out.len() > 0 && out.last() is Name {
                out.drop_last()
            } else {
                out
            },
            Step::Current => out,
            step => out.push(step),
        };
        collapsed(path, i + 1, next)
    }
}

/// A path without `.` and `..`, relative to another when it lies below that.
pub open spec fn relative(path: Seq<Step>, base: Seq<Step>) -> Seq<Step> {
    let p = collapsed(path, 0, Seq::empty());
    let b = collapsed(base, 0, Seq::empty());
    if b.is_prefix_of(p) {
        p.skip(b.len() as int)
    } else {
        p
    }
}

/// A collapsed path has no `.` and no `..`.
pub proof fn collapsed_has_no_dots(path: Seq<Step>, i: nat, out: Seq<Step>)
    requires
        forall|k: int| 0 <= k < out.len() ==> (#[trigger] out[k]) is Base || out[k] is Name,
    ensures
        forall|k: int|
            0 <= k < collapsed(path, i, out).len() ==> (#[trigger] collapsed(path, i, out)[k])
                is Base || collapsed(path, i, out)[k] is Name,
    decreases path.len() - i,
{
    if i < path.len() {
        let next = match path[i as int] {
            Step::Parent => if out.len() > 0 && out.last() is Name {
                out.drop_last()
            } else {
                out
            },
            Step::Current => out,
            step => out.push(step),
        };
        collapsed_has_no_dots(path, i + 1, next);
    }
}

/// A path without `.` and `..` collapses to itself.
proof fn plain_path_stays(path: Seq<Step>, i: nat)
    requires
        i <= path.len(),
        forall|k: int| 0 <= k < path.len() ==> (#[trigger] path[k]) is Base || path[k] is Name,
    ensures
        collapsed(path, i, path.take(i as int)) == path,
    decreases path.len() - i,
{
    if i < path.len() {
        assert(path[i as int] is Base || path[i as int] is Name);
        assert(path.take(i as int).push(path[i as int]) =~= path.take(i as int + 1));
        plain_path_stays(path, i + 1);
    } else {
        assert(path.take(i as int) =~= path);
    }
}

/// To collapse a path again changes nothing.
pub proof fn collapsing_twice(path: Seq<Step>)
    ensures
        collapsed(collapsed(path, 0, Seq::empty()), 0, Seq::empty()) == collapsed(
            path,
            0,
            Seq::empty(),
        ),
{
    let once = collapsed(path, 0, Seq::empty());
    collapsed_has_no_dots(path, 0, Seq::empty());
    plain_path_stays(once, 0);
    assert(once.take(0) =~= Seq::empty());
}

impl Clone for Segment {
    fn clone(&self) -> (r: Segment)
        ensures
            r@ == self@,
    {
        match self {
            Segment::Base(s) => Segment::Base(s.clone()),
            Segment::Parent => Segment::Parent,
            Segment::Current => Segment::Current,
            Segment::Name(s) => Segment::Name(s.clone()),
        }
    }
}

impl Segment {
    /// Whether two segments are the same.
    pub fn same(&self, other: &Segment) -> (b: bool)
        ensures
            b == (self@ == other@),
    {
        match (self, other) {
            (Segment::Base(s), Segment::Base(t)) => *s.as_str() == *t.as_str(),
            (Segment::Parent, Segment::Parent) => true,
            (Segment::Current, Segment::Current) => true,
            (Segment::Name(s), Segment::Name(t)) => *s.as_str() == *t.as_str(),
            _ => false,
        }
    }
}

/// Collapse `.` and `..` segments lexically.
pub fn normalise(path: &Vec<Segment>) -> (r: Vec<Segment>)
    ensures
        steps(r@) == collapsed(steps(path@), 0, Seq::empty()),
{
    let ghost all = steps(path@);
    let mut out: Vec<Segment> = Vec::new();
    assert(steps(out@) =~= Seq::empty());
    let mut i: usize = 0;
    while i < path.len()
        invariant
            i <= path@.len(),
            all == steps(path@),
            collapsed(all, 0, Seq::empty()) == collapsed(all, i as nat, steps(out@)),
        decreases path@.len() - i,
    {
        let ghost before = steps(out@);
        assert(all[i as int] == path@[i as int]@);
        match &path[i] {
            Segment::Parent => {
                let n: usize = out.len();
                let named = n > 0 && matches!(out[n - 1], Segment::Name(_));
                if named {
                    out.pop();
                    assert(steps(out@) =~= before.drop_last());
                }
            },
            Segment::Current => {},
            segment => {
                out.push(segment.clone());
                assert(steps(out@) =~= before.push(segment@));
            },
        }
        i += 1;
    }
    out
}

/// Express `path` relative to `base`, falling back to the whole path.
pub fn relative_to(path: &Vec<Segment>, base: &Vec<Segment>) -> (r: Vec<Segment>)
    ensures
        steps(r@) == relative(steps(path@), steps(base@)),
{
    let p = normalise(path);
    let b = normalise(base);
    let mut below = b.len() <= p.len();
    let mut i: usize = 0;
    while below && i < b.len()
        invariant
            i <= b@.len(),
            below ==> b@.len() <= p@.len() && forall|k: int|
                0 <= k < i ==> steps(b@)[k] == #[trigger] steps(p@)[k],
            !below ==> !steps(b@).is_prefix_of(steps(p@)),
        decreases b@.len() - i,
    {
        assert(steps(p@)[i as int] == p@[i as int]@ && steps(b@)[i as int] == b@[i as int]@);
        below = p[i].same(&b[i]);
        proof {
            if !below && steps(b@).is_prefix_of(steps(p@)) {
                assert(steps(p@).subrange(0, b@.len() as int)[i as int] == steps(p@)[i as int]);
            }
        }
        i += 1;
    }
    let from: usize = if below {
        proof {
            assert(steps(b@) =~= steps(p@).subrange(0, b@.len() as int));
        }
        b.len()
    } else {
        0
    };
    let mut r: Vec<Segment> = Vec::new();
    let mut k: usize = from;
    while k < p.len()
        invariant
            from <= k <= p@.len(),
            r@.len() == k - from,
            forall|q: int| 0 <= q < r@.len() ==> (#[trigger] r@[q])@ == p@[from + q]@,
        decreases p@.len() - k,
    {
        r.push(p[k].clone());
        k += 1;
    }
    assert(steps(r@) =~= steps(p@).skip(from as int));
    r
}

// --- nested references -----------------------------------------------------

/// The new name of a file, its own without one.
pub open spec fn moved_file(moved: Members, file: Text) -> Text {
    match json::text_of(json::lookup(moved, file)) {
        Some(f) => f,
        None => file,
    }
}

/// An external reference to the new name of its file.
pub open spec fn moved_ref(moved: Members, reference: Text) -> Text {
    let (file, fragment) = fragment_split(reference);
    if text::occurs(reference, "#"@) {
        moved_file(moved, file) + "#"@ + fragment
    } else {
        moved_file(moved, file)
    }
}

/// The rewriting of external references to the new names of their files.
pub struct RefMover {
    moved: Object,
}

impl Visitor for RefMover {
    type State = Members;

    closed spec fn state(&self) -> Members {
        self.moved@
    }

    open spec fn visited(s: Members, container: Json, key: Text, path: Text) -> (Members, Json) {
        match external_at(container, key) {
            Some(r) => (s, container.with(key, Json::String(moved_ref(s, r)))),
            None => (s, container),
        }
    }

    proof fn visit_is_bounded(s: Members, container: Json, key: Text, path: Text) {
        if let Some(r) = external_at(container, key) {
            let m = container->Object_0;
            laws::member_is_lower(m, key);
            laws::insert_keeps_height(m, key, Json::String(moved_ref(s, r)));
        }
    }

    fn visit(&mut self, container: &mut JsonValue, key: &str, state: &RecurseState) {
        if is_ref(container, key) {
            let reference = match container.get_str(key) {
                Some(s) => s.to_owned(),
                None => return ,
            };
            if !text::starts_with(reference.as_str(), "#") {
                let (file, fragment) = split_fragment(reference.as_str());
                let name = match self.moved.get(file.as_str()) {
                    Some(v) => match v.as_str() {
                        Some(f) => f.to_owned(),
                        None => file,
                    },
                    None => file,
                };
                let new_ref = if text::contains(reference.as_str(), "#") {
                    text::cat3(name.as_str(), "#", fragment.as_str())
                } else {
                    name
                };
                container.put(key, JsonValue::String(new_ref));
            }
        }
    }
}

/// The data with every external reference to the new name of its file.
pub open spec fn refs_moved(data: Json, moved: Members) -> Json {
    recurse::recursed::<RefMover>(moved, data, "#"@).1
}

/// Rewrite nested external refs to be relative to the original source.
///
/// A ref like `./subdir2/ok.yaml` inside a file at `dir/test.yaml` becomes
/// `dir/subdir2/ok.yaml` so the next resolution pass reads the correct file.
/// `moved` gives the new name of each file.
pub fn rewrite_nested_external_refs(data: &mut JsonValue, moved: &Object)
    ensures
        final(data)@ == refs_moved(old(data)@, moved@),
{
    let mut mover = RefMover { moved: moved.clone() };
    recurse(data, "#", &mut mover);
}

// --- placing ---------------------------------------------------------------

/// The length of a text in bytes.
pub open spec fn byte_len(s: Text) -> nat {
    vstd::utf8::encode_utf8(s).len()
}

/// Where a text goes among texts in order of length: after those that are no
/// longer, from position `i` on.
pub open spec fn slot(v: Seq<Text>, x: Text, i: nat) -> nat
    decreases v.len() - i,
{
    if i >= v.len() || byte_len(v[i as int]) > byte_len(x) {
        i
    } else {
        slot(v, x, i + 1)
    }
}

/// The texts in order of length. Texts of one length keep their order.
pub open spec fn by_length(v: Seq<Text>) -> Seq<Text>
    decreases v.len(),
{
    if v.len() == 0 {
        Seq::empty()
    } else {
        let shorter = by_length(v.drop_last());
        shorter.insert(slot(shorter, v.last(), 0) as int, v.last())
    }
}

/// A slot is a position, at most the end.
proof fn slot_bound(v: Seq<Text>, x: Text, i: nat)
    requires
        i <= v.len(),
    ensures
        i <= slot(v, x, i) <= v.len(),
    decreases v.len() - i,
{
    if i < v.len() && byte_len(v[i as int]) <= byte_len(x) {
        slot_bound(v, x, i + 1);
    }
}

/// Before a slot stand no longer texts, and at it a longer one.
proof fn slot_splits(v: Seq<Text>, x: Text, i: nat)
    requires
        i <= v.len(),
    ensures
        forall|k: int| i <= k < slot(v, x, i) ==> byte_len(#[trigger] v[k]) <= byte_len(x),
        slot(v, x, i) < v.len() ==> byte_len(v[slot(v, x, i) as int]) > byte_len(x),
    decreases v.len() - i,
{
    if i < v.len() && byte_len(v[i as int]) <= byte_len(x) {
        slot_splits(v, x, i + 1);
    }
}

/// The texts in order of length are the same texts, from the shortest on.
pub proof fn by_length_sorts(v: Seq<Text>)
    ensures
        by_length(v).to_multiset() == v.to_multiset(),
        forall|a: int, b: int|
            0 <= a <= b < by_length(v).len() ==> byte_len(#[trigger] by_length(v)[a]) <= byte_len(
                #[trigger] by_length(v)[b],
            ),
    decreases v.len(),
{
    broadcast use vstd::seq_lib::group_to_multiset_ensures;

    if v.len() > 0 {
        let front = v.drop_last();
        let s = by_length(front);
        let x = v.last();
        let k = slot(s, x, 0) as int;
        by_length_sorts(front);
        slot_bound(s, x, 0);
        slot_splits(s, x, 0);
        assert(v =~= front.push(x));
        let r = s.insert(k, x);
        assert forall|a: int, b: int| 0 <= a <= b < r.len() implies byte_len(#[trigger] r[a])
            <= byte_len(#[trigger] r[b]) by {
            if a < k {
                assert(r[a] == s[a]);
            } else if a > k {
                assert(r[a] == s[a - 1]);
            }
            if b < k {
                assert(r[b] == s[b]);
            } else if b > k {
                assert(r[b] == s[b - 1]);
                assert(byte_len(s[k]) <= byte_len(s[b - 1]));
            }
        }
    }
}

/// The length of a string in bytes.
fn count_bytes(s: &str) -> (n: usize)
    ensures
        n == byte_len(s@),
{
    s.as_bytes().len()
}

/// Sort texts by length, stably.
fn sort_by_length(v: &Vec<String>) -> (r: Vec<String>)
    ensures
        json::texts(r@) == by_length(json::texts(v@)),
{
    let ghost vs = json::texts(v@);
    let mut out: Vec<String> = Vec::new();
    assert(json::texts(out@) =~= by_length(vs.take(0)));
    let mut i: usize = 0;
    while i < v.len()
        invariant
            i <= v@.len(),
            vs == json::texts(v@),
            json::texts(out@) == by_length(vs.take(i as int)),
        decreases v@.len() - i,
    {
        let ghost os = json::texts(out@);
        let x = v[i].as_str();
        let mut k: usize = 0;
        while k < out.len() && count_bytes(out[k].as_str()) <= count_bytes(x)
            invariant
                k <= out@.len(),
                os == json::texts(out@),
                slot(os, x@, 0) == slot(os, x@, k as nat),
            decreases out@.len() - k,
        {
            assert(os[k as int] == out@[k as int]@);
            k += 1;
        }
        proof {
            if k < out@.len() {
                assert(os[k as int] == out@[k as int]@);
            }
        }
        out.insert(k, v[i].clone());
        proof {
            assert(json::texts(out@) =~= os.insert(k as int, x@));
            assert(vs.take(i + 1).drop_last() =~= vs.take(i as int));
            assert(vs.take(i + 1).last() == x@);
        }
        i += 1;
    }
    assert(vs.take(v@.len() as int) =~= vs);
    out
}

/// The document with references to `first` at the pointers from position `i` on.
pub open spec fn repeats_placed(openapi: Json, pointers: Seq<Text>, i: nat, first: Text) -> Json
    decreases pointers.len() - i,
{
    if i >= pointers.len() {
        openapi
    } else {
        let d1 = jptr::write(
            openapi,
            pointers[i as int],
            Json::single("$ref"@, Json::String(first)),
        ).0;
        repeats_placed(d1, pointers, i + 1, first)
    }
}

/// The document with data at the shortest of some pointers, and references to that
/// copy at the others.
pub open spec fn placed(openapi: Json, paths: Seq<Text>, data: Json) -> Json {
    let pointers = by_length(common::firsts(paths));
    if pointers.len() == 0 {
        openapi
    } else {
        repeats_placed(jptr::write(openapi, pointers[0], data).0, pointers, 1, pointers[0])
    }
}

/// Write data into a document at some pointers.
fn place(openapi: &mut JsonValue, paths: &Vec<String>, data: JsonValue)
    ensures
        final(openapi)@ == placed(old(openapi)@, json::texts(paths@), data@),
{
    let unique = common::unique_only(paths.as_slice());
    let pointers = sort_by_length(&unique);
    let ghost ps = json::texts(pointers@);
    if pointers.len() == 0 {
        return ;
    }
    let first = pointers[0].as_str();
    jptr::set(openapi, first, data);
    let ghost d1 = openapi@;
    let mut i: usize = 1;
    while i < pointers.len()
        invariant
            1 <= i <= pointers@.len(),
            ps == json::texts(pointers@),
            first@ == ps[0],
            repeats_placed(d1, ps, 1, ps[0]) == repeats_placed(openapi@, ps, i as nat, ps[0]),
        decreases pointers@.len() - i,
    {
        assert(ps[i as int] == pointers@[i as int]@);
        let repeat = JsonValue::single("$ref", JsonValue::text(first));
        jptr::set(openapi, pointers[i].as_str(), repeat);
        i += 1;
    }
}

/// What a reference selects of the document of its file, an empty object when
/// there is nothing.
pub open spec fn selected(context: Json, reference: Text) -> Json {
    let (_, fragment) = fragment_split(reference);
    if fragment.len() == 0 {
        context
    } else {
        json::value_or(jptr::read(context, "#"@ + fragment), Json::empty())
    }
}

/// The settings with one external reference resolved in the document of its file.
pub open spec fn resolved_one(
    o: Settings,
    external: (Text, Seq<Text>),
    context: Json,
    moved: Members,
) -> Settings {
    let (reference, paths) = external;
    let attach = if paths.len() == 0 {
        "#"@
    } else {
        paths[0]
    };
    let data = refs_moved(
        inlining::internally_resolved(selected(context, reference), context, attach),
        moved,
    );
    o.with_openapi(placed(o.openapi, paths, data))
}

/// Resolve a single external reference, writing data back into the document.
///
/// `context` is the document of the file that the reference names, and `moved`
/// gives the name of each file that `context` refers to, relative to the original
/// source.
pub fn resolve_one(options: &mut Options, ext: &ExternalRef, context: &JsonValue, moved: &Object)
    ensures
        final(options)@ == resolved_one(old(options)@, ext@, context@, moved@),
{
    let (_, fragment) = split_fragment(ext.reference.as_str());
    let mut data = if fragment.as_str().is_empty() {
        context.clone()
    } else {
        match jptr::get(context, text::cat("#", fragment.as_str()).as_str()) {
            Some(v) => v.clone(),
            None => JsonValue::empty_object(),
        }
    };
    let attach_point = if ext.paths.len() == 0 {
        "#".to_owned()
    } else {
        ext.paths[0].clone()
    };
    inlining::resolve_all_internal(&mut data, context, attach_point.as_str());
    rewrite_nested_external_refs(&mut data, moved);
    let mut doc = options.take_document();
    place(&mut doc, &ext.paths, data);
    options.set_document(doc);
}

} // verus!

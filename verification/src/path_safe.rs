//! Relative paths that stay below the directory they are joined to.

use vstd::prelude::*;

use crate::text;

verus! {

/// Why a text is no safe relative path.
#[derive(Debug, PartialEq, Eq)]
pub enum PathSafeError {
    Empty,
    NulByte { path: String },
    MustBeRelative { path: String },
    ForbiddenComponent { path: String, component: String },
}

/// The characters of a [`PathSafeError`].
pub enum PathFault {
    Empty,
    NulByte { path: Seq<char> },
    MustBeRelative { path: Seq<char> },
    ForbiddenComponent { path: Seq<char>, component: Seq<char> },
}

impl View for PathSafeError {
    type V = PathFault;

    open spec fn view(&self) -> PathFault {
        match *self {
            PathSafeError::Empty => PathFault::Empty,
            PathSafeError::NulByte { path } => PathFault::NulByte { path: path@ },
            PathSafeError::MustBeRelative { path } => PathFault::MustBeRelative { path: path@ },
            PathSafeError::ForbiddenComponent { path, component } => PathFault::ForbiddenComponent {
                path: path@,
                component: component@,
            },
        }
    }
}

/// The text that shows a fault.
pub open spec fn fault_text(f: PathFault) -> Seq<char> {
    match f {
        PathFault::Empty => "path is empty"@,
        PathFault::NulByte { path } => "path "@ + text::quoted_text(path) + " contains NUL byte"@,
        PathFault::MustBeRelative { path } => "path "@ + text::quoted_text(path)
            + " must be relative (no leading '/')"@,
        PathFault::ForbiddenComponent { path, component } => "path "@ + text::quoted_text(path)
            + " contains forbidden component "@ + text::quoted_text(component),
    }
}

impl PathSafeError {
    /// The error as a message.
    pub fn message(&self) -> (r: String)
        ensures
            r@ == fault_text(self@),
    {
        match self {
            PathSafeError::Empty => "path is empty".to_owned(),
            PathSafeError::NulByte { path } => {
                let mut s = "path ".to_owned();
                s.push_str(text::quoted(path).as_str());
                s.push_str(" contains NUL byte");
                s
            },
            PathSafeError::MustBeRelative { path } => {
                let mut s = "path ".to_owned();
                s.push_str(text::quoted(path).as_str());
                s.push_str(" must be relative (no leading '/')");
                s
            },
            PathSafeError::ForbiddenComponent { path, component } => {
                let mut s = "path ".to_owned();
                s.push_str(text::quoted(path).as_str());
                s.push_str(" contains forbidden component ");
                s.push_str(text::quoted(component).as_str());
                s
            },
        }
    }
}

/// The first of `parts` that is `.` or `..`.
pub open spec fn first_dots(parts: Seq<Seq<char>>) -> Option<Seq<char>>
    decreases parts.len(),
{
    if parts.len() == 0 {
        None
    } else if parts[0] == "."@ || parts[0] == ".."@ {
        Some(parts[0])
    } else {
        first_dots(parts.drop_first())
    }
}

/// What is wrong with `path` as a relative path.
pub open spec fn relative_fault(path: Seq<char>) -> Option<PathFault> {
    if path.len() == 0 {
        Some(PathFault::Empty)
    } else if path.contains('\0') {
        Some(PathFault::NulByte { path })
    } else if path[0] == '/' {
        Some(PathFault::MustBeRelative { path })
    } else {
        match first_dots(text::split(path, '/')) {
            Some(component) => Some(PathFault::ForbiddenComponent { path, component }),
            None => None,
        }
    }
}

/// Whether `chars` holds `c`.
fn holds(chars: &Vec<char>, c: char) -> (r: bool)
    ensures
        r == chars@.contains(c),
{
    let mut i: usize = 0;
    while i < chars.len()
        invariant
            i <= chars@.len(),
            forall|j: int| 0 <= j < i ==> chars@[j] != c,
        decreases chars@.len() - i,
    {
        if chars[i] == c {
            assert(chars@[i as int] == c);
            return true;
        }
        i += 1;
    }
    false
}

/// Checks that `path` is not empty, holds no NUL, does not start with `/` and
/// has no component `.` or `..`.
pub fn validate_relative(path: &str) -> (r: Result<(), PathSafeError>)
    ensures
        match r {
            Ok(_) => relative_fault(path@) is None,
            Err(e) => relative_fault(path@) == Some(e@),
        },
{
    let cs = text::chars_of(path);
    if cs.len() == 0 {
        return Err(PathSafeError::Empty);
    }
    if holds(&cs, '\0') {
        return Err(PathSafeError::NulByte { path: path.to_owned() });
    }
    if cs[0] == '/' {
        return Err(PathSafeError::MustBeRelative { path: path.to_owned() });
    }
    let parts = text::split_at_char(path, '/');
    let ghost v = text::views(parts@);
    let mut i: usize = 0;
    assert(v.skip(0) =~= v);
    while i < parts.len()
        invariant
            i <= parts@.len(),
            v == text::views(parts@),
            v == text::split(path@, '/'),
            first_dots(v) == first_dots(v.skip(i as int)),
            path@.len() > 0,
            !path@.contains('\0'),
            path@[0] != '/',
        decreases parts@.len() - i,
    {
        assert(v.skip(i as int)[0] == parts@[i as int]@);
        assert(v.skip(i as int).drop_first() =~= v.skip(i as int + 1));
        if text::str_eq(parts[i].as_str(), ".") || text::str_eq(parts[i].as_str(), "..") {
            return Err(
                PathSafeError::ForbiddenComponent {
                    path: path.to_owned(),
                    component: parts[i].clone(),
                },
            );
        }
        i += 1;
    }
    Ok(())
}

/// `path` below `mount`: with a `/` between the two, unless `mount` is empty or
/// ends with one.
pub open spec fn below(mount: Seq<char>, path: Seq<char>) -> Seq<char> {
    if mount.len() == 0 || mount.last() == '/' {
        mount + path
    } else {
        mount + seq!['/'] + path
    }
}

/// Puts `path` below `mount`.
pub fn put_below(mount: &str, path: &str) -> (r: String)
    ensures
        r@ == below(mount@, path@),
{
    let cs = text::chars_of(mount);
    let mut s = mount.to_owned();
    if cs.len() > 0 && cs[cs.len() - 1] != '/' {
        s.push('/');
        assert(s@ =~= mount@ + seq!['/']);
    }
    s.push_str(path);
    s
}

/// Joins the components from `from` on with `/`.
pub fn join_paths(parts: &Vec<String>, from: usize) -> (r: String)
    requires
        from <= parts@.len(),
    ensures
        r@ == text::joined(text::views(parts@).skip(from as int), seq!['/']),
{
    let mut rest: Vec<String> = Vec::new();
    let mut i: usize = from;
    let ghost v = text::views(parts@);
    assert(text::views(rest@) =~= v.subrange(from as int, from as int));
    while i < parts.len()
        invariant
            from <= i <= parts@.len(),
            v == text::views(parts@),
            text::views(rest@) == v.subrange(from as int, i as int),
        decreases parts@.len() - i,
    {
        let ghost before = rest@;
        rest.push(parts[i].clone());
        assert(text::views(rest@) =~= text::views(before).push(parts@[i as int]@));
        assert(v.subrange(from as int, i as int + 1) =~= v.subrange(from as int, i as int).push(
            v[i as int],
        ));
        i += 1;
    }
    proof {
        assert(v.subrange(from as int, v.len() as int) =~= v.skip(from as int));
        reveal_strlit("/");
        assert("/"@ =~= seq!['/']);
    }
    text::join_with(&rest, "/")
}

/// Checks `relative` and puts it below `mount_point`. The file system is not
/// asked.
pub fn join_under_mount(mount_point: &str, relative: &str) -> (r: Result<String, PathSafeError>)
    ensures
        match r {
            Ok(p) => relative_fault(relative@) is None && p@ == below(mount_point@, relative@),
            Err(e) => relative_fault(relative@) == Some(e@),
        },
{
    match validate_relative(relative) {
        Ok(_) => {},
        Err(e) => {
            return Err(e);
        },
    }
    Ok(put_below(mount_point, relative))
}

/// `path` with a single `/` between its components and none at its end.
pub open spec fn collapsed(path: Seq<char>) -> Seq<char> {
    text::joined(text::nonempty(text::split(path, '/')), seq!['/'])
}

/// Whether `path` starts with `./`.
pub open spec fn starts_here(path: Seq<char>) -> bool {
    path.len() >= 2 && path[0] == '.' && path[1] == '/'
}

/// `path` without one leading `./`.
pub open spec fn from_here(path: Seq<char>) -> Seq<char> {
    if starts_here(path) {
        path.skip(2)
    } else {
        path
    }
}

/// `path` without a leading `./`, with a single `/` between its components and
/// none at its end.
pub open spec fn normalized(path: Seq<char>) -> Seq<char> {
    collapsed(from_here(path))
}

/// The same fault, found in a part of `path`.
pub open spec fn fault_in(f: PathFault, path: Seq<char>) -> PathFault {
    match f {
        PathFault::Empty => PathFault::Empty,
        PathFault::NulByte { .. } => PathFault::NulByte { path },
        PathFault::MustBeRelative { .. } => PathFault::MustBeRelative { path },
        PathFault::ForbiddenComponent { component, .. } => PathFault::ForbiddenComponent {
            path,
            component,
        },
    }
}

/// What is wrong with `path` as a path to normalise: a backslash, or what is
/// wrong as a relative path with what follows a leading `./`.
pub open spec fn normalize_fault(path: Seq<char>) -> Option<PathFault> {
    if path.contains('\\') {
        Some(PathFault::ForbiddenComponent { path, component: "\\"@ })
    } else {
        match relative_fault(from_here(path)) {
            Some(f) => Some(fault_in(f, path)),
            None => None,
        }
    }
}

impl PathSafeError {
    /// The same error, found in a part of `whole`.
    fn found_in(self, whole: &str) -> (r: PathSafeError)
        ensures
            r@ == fault_in(self@, whole@),
    {
        let path = whole.to_owned();
        match self {
            PathSafeError::Empty => PathSafeError::Empty,
            PathSafeError::NulByte { .. } => PathSafeError::NulByte { path },
            PathSafeError::MustBeRelative { .. } => PathSafeError::MustBeRelative { path },
            PathSafeError::ForbiddenComponent { component, .. } => {
                PathSafeError::ForbiddenComponent { path, component }
            },
        }
    }
}

/// Checks `path` and leaves out a leading `./` and repeated and trailing `/`.
pub fn normalize_relative(path: &str) -> (r: Result<String, PathSafeError>)
    ensures
        match r {
            Ok(p) => normalize_fault(path@) is None && p@ == normalized(path@),
            Err(e) => normalize_fault(path@) == Some(e@),
        },
{
    let cs = text::chars_of(path);
    if holds(&cs, '\\') {
        return Err(
            PathSafeError::ForbiddenComponent {
                path: path.to_owned(),
                component: "\\".to_owned(),
            },
        );
    }
    let rest = if cs.len() >= 2 && cs[0] == '.' && cs[1] == '/' {
        text::string_of(&text::sub_chars(&cs, 2, cs.len()))
    } else {
        path.to_owned()
    };
    assert(rest@ =~= from_here(path@));
    match validate_relative(rest.as_str()) {
        Ok(_) => {},
        Err(e) => {
            return Err(e.found_in(path));
        },
    }
    let kept = components(rest.as_str());
    let out = text::join_with(&kept, "/");
    proof {
        reveal_strlit("/");
        assert("/"@ =~= seq!['/']);
    }
    Ok(out)
}

/// Why a path is not taken as one below its mount point. Paths are held as
/// text, the error of the file system as its message.
#[derive(Debug)]
pub enum CanonicalizeError {
    PathSafe(PathSafeError),
    Io { path: String, source: String },
    EscapesMount { mount_point: String, target: String },
}

/// The text that shows an error.
pub open spec fn canonicalize_error_text(e: CanonicalizeError) -> Seq<char> {
    match e {
        CanonicalizeError::PathSafe(p) => fault_text(p@),
        CanonicalizeError::Io { path, source } => "canonicalize "@ + text::quoted_text(path@)
            + " failed: "@ + source@,
        CanonicalizeError::EscapesMount { mount_point, target } => "path "@ + text::quoted_text(
            target@,
        ) + " escapes mount_point "@ + text::quoted_text(mount_point@),
    }
}

impl CanonicalizeError {
    /// The error as a message.
    pub fn message(&self) -> (r: String)
        ensures
            r@ == canonicalize_error_text(*self),
    {
        match self {
            CanonicalizeError::PathSafe(p) => p.message(),
            CanonicalizeError::Io { path, source } => {
                let mut s = "canonicalize ".to_owned();
                s.push_str(text::quoted(path).as_str());
                s.push_str(" failed: ");
                s.push_str(source.as_str());
                s
            },
            CanonicalizeError::EscapesMount { mount_point, target } => {
                let mut s = "path ".to_owned();
                s.push_str(text::quoted(target).as_str());
                s.push_str(" escapes mount_point ");
                s.push_str(text::quoted(mount_point).as_str());
                s
            },
        }
    }
}

/// `parts` without those that are `.`.
pub open spec fn without_dots(parts: Seq<Seq<char>>) -> Seq<Seq<char>>
    decreases parts.len(),
{
    if parts.len() == 0 {
        parts
    } else if parts.last() == "."@ {
        without_dots(parts.drop_last())
    } else {
        without_dots(parts.drop_last()).push(parts.last())
    }
}

/// The steps that a path takes: from the root, written as `/`, where it starts
/// with `/`, and then from one component to the next. A `.` is a step only where
/// a path starts with it.
pub open spec fn steps(path: Seq<char>) -> Seq<Seq<char>> {
    let parts = text::nonempty(text::split(path, '/'));
    if path.len() > 0 && path[0] == '/' {
        seq!["/"@] + without_dots(parts)
    } else if parts.len() > 0 && parts[0] == "."@ {
        seq!["."@] + without_dots(parts)
    } else {
        without_dots(parts)
    }
}

/// Whether the canonical path `target` lies in `mount`: its steps start with
/// those of `mount`.
pub open spec fn lies_in(target: Seq<char>, mount: Seq<char>) -> bool {
    let m = steps(mount);
    m.len() <= steps(target).len() && steps(target).take(m.len() as int) == m
}

/// The steps that a path takes.
pub fn steps_of(path: &str) -> (r: Vec<String>)
    ensures
        text::views(r@) == steps(path@),
{
    let cs = text::chars_of(path);
    let parts = components(path);
    let ghost v = text::views(parts@);
    let mut out: Vec<String> = Vec::new();
    assert(v.len() == parts@.len());
    if parts.len() > 0 {
        assert(v[0] == parts@[0]@);
    }
    if cs.len() > 0 && cs[0] == '/' {
        out.push("/".to_owned());
        assert(text::views(out@) =~= seq!["/"@]);
    } else if parts.len() > 0 && text::str_eq(parts[0].as_str(), ".") {
        out.push(".".to_owned());
        assert(text::views(out@) =~= seq!["."@]);
    } else {
        assert(text::views(out@) =~= Seq::<Seq<char>>::empty());
    }
    let ghost head = text::views(out@);
    let mut i: usize = 0;
    assert(v.take(0) =~= Seq::<Seq<char>>::empty());
    assert(head + without_dots(v.take(0)) =~= head);
    while i < parts.len()
        invariant
            i <= parts@.len(),
            v == text::views(parts@),
            text::views(out@) == head + without_dots(v.take(i as int)),
        decreases parts@.len() - i,
    {
        let ghost next = v.take(i as int + 1);
        assert(next.drop_last() =~= v.take(i as int));
        assert(next.last() == parts@[i as int]@);
        if !text::str_eq(parts[i].as_str(), ".") {
            let ghost before = out@;
            out.push(parts[i].clone());
            assert(text::views(out@) =~= text::views(before).push(parts@[i as int]@));
            assert(head + without_dots(next) =~= (head + without_dots(v.take(i as int))).push(
                parts@[i as int]@,
            ));
        }
        i += 1;
    }
    assert(v.take(i as int) =~= v);
    assert(head + without_dots(v) =~= steps(path@));
    out
}

/// The components of `path`.
pub fn components(path: &str) -> (r: Vec<String>)
    ensures
        text::views(r@) == text::nonempty(text::split(path@, '/')),
{
    let parts = text::split_at_char(path, '/');
    let mut kept: Vec<String> = Vec::new();
    let mut i: usize = 0;
    let ghost v = text::views(parts@);
    assert(text::views(kept@) =~= text::nonempty(v.take(0)));
    while i < parts.len()
        invariant
            i <= parts@.len(),
            v == text::views(parts@),
            text::views(kept@) == text::nonempty(v.take(i as int)),
        decreases parts@.len() - i,
    {
        let ghost next = v.take(i as int + 1);
        assert(next.drop_last() =~= v.take(i as int));
        assert(next.last() == parts@[i as int]@);
        if !parts[i].as_str().is_empty() {
            let ghost before = kept@;
            kept.push(parts[i].clone());
            assert(text::views(kept@) =~= text::views(before).push(parts@[i as int]@));
        }
        i += 1;
    }
    assert(v.take(i as int) =~= v);
    kept
}

/// Whether the canonical path `target` lies in `mount`.
pub fn lies_within(target: &str, mount: &str) -> (r: bool)
    ensures
        r == lies_in(target@, mount@),
{
    let t = steps_of(target);
    let m = steps_of(mount);
    let ghost tv = text::views(t@);
    let ghost mv = text::views(m@);
    assert(tv.len() == t@.len() && mv.len() == m@.len());
    if m.len() > t.len() {
        return false;
    }
    let mut i: usize = 0;
    while i < m.len()
        invariant
            i <= m@.len() <= t@.len(),
            tv == text::views(t@),
            mv == text::views(m@),
            tv == steps(target@),
            mv == steps(mount@),
            forall|j: int| 0 <= j < i ==> tv[j] == mv[j],
        decreases m@.len() - i,
    {
        if t[i] != m[i] {
            assert(tv.take(m@.len() as int)[i as int] != mv[i as int]);
            return false;
        }
        i += 1;
    }
    assert(tv.take(m@.len() as int) =~= mv);
    true
}

/// Decides on `relative` below the canonical path `mount_point`, given what
/// the file system resolved the joined path to (its canonical form, or the
/// message of its error).
pub fn canonicalize_within_mount(
    mount_point: &str,
    relative: &str,
    resolved: Result<String, String>,
) -> (r: Result<String, CanonicalizeError>)
    ensures
        match relative_fault(relative@) {
            Some(f) => r matches Err(CanonicalizeError::PathSafe(e)) && e@ == f,
            None => match resolved {
                Err(m) => r matches Err(CanonicalizeError::Io { path, source }) && path@ == below(
                    mount_point@,
                    relative@,
                ) && source@ == m@,
                Ok(canon) => if lies_in(canon@, mount_point@) {
                    r matches Ok(p) && p@ == canon@
                } else {
                    r matches Err(CanonicalizeError::EscapesMount { mount_point: m, target })
                        && m@ == mount_point@ && target@ == canon@
                },
            },
        },
{
    let joined = match join_under_mount(mount_point, relative) {
        Ok(p) => p,
        Err(e) => {
            return Err(CanonicalizeError::PathSafe(e));
        },
    };
    match resolved {
        Err(m) => Err(CanonicalizeError::Io { path: joined, source: m }),
        Ok(canon) => if lies_within(canon.as_str(), mount_point) {
            Ok(canon)
        } else {
            Err(
                CanonicalizeError::EscapesMount {
                    mount_point: mount_point.to_owned(),
                    target: canon,
                },
            )
        },
    }
}

/// A path that is accepted has no component `.` or `..`.
pub proof fn law_accepted_path_has_no_dots(path: Seq<char>)
    requires
        relative_fault(path) is None,
    ensures
        !text::split(path, '/').contains("."@),
        !text::split(path, '/').contains(".."@),
{
    lemma_no_dots(text::split(path, '/'));
}

/// Without a first part of dots there is none.
proof fn lemma_no_dots(parts: Seq<Seq<char>>)
    ensures
        first_dots(parts) is None <==> !parts.contains("."@) && !parts.contains(".."@),
    decreases parts.len(),
{
    if parts.len() > 0 {
        lemma_no_dots(parts.drop_first());
        let rest = parts.drop_first();
        assert forall|x: Seq<char>| #[trigger] parts.contains(x) == (parts[0] == x || rest.contains(x)) by {
            if parts.contains(x) {
                let k = choose|k: int| 0 <= k < parts.len() && parts[k] == x;
                if k > 0 {
                    assert(rest[k - 1] == x);
                }
            }
            if rest.contains(x) {
                let k = choose|k: int| 0 <= k < rest.len() && rest[k] == x;
                assert(parts[k + 1] == x);
            }
            if parts[0] == x {
                assert(parts.contains(x));
            }
        }
    }
}

/// The components of a path do not change when it is collapsed.
proof fn lemma_collapsed_components(path: Seq<char>)
    requires
        path.len() > 0,
        path[0] != '/',
    ensures
        text::split(collapsed(path), '/') == text::nonempty(text::split(path, '/')),
        text::nonempty(text::split(path, '/')).len() > 0,
{
    let parts = text::split(path, '/');
    let kept = text::nonempty(parts);
    text::lemma_split_parts(path, '/');
    text::lemma_nonempty(parts);
    lemma_first_part(path);
    assert(kept.contains(parts[0]));
    assert forall|i: int| 0 <= i < kept.len() implies !(#[trigger] kept[i]).contains('/') by {
        assert(parts.contains(kept[i]));
        let k = choose|k: int| 0 <= k < parts.len() && parts[k] == kept[i];
        assert(!parts[k].contains('/'));
    }
    text::lemma_split_joined(kept, '/');
}

/// The first part of a path that does not start with `/` holds its first
/// character.
proof fn lemma_first_part(path: Seq<char>)
    requires
        path.len() > 0,
        path[0] != '/',
    ensures
        text::split(path, '/').len() > 0,
        text::split(path, '/')[0].len() > 0,
        text::split(path, '/')[0][0] == path[0],
    decreases path.len(),
{
    let head = path.drop_last();
    text::lemma_split_parts(head, '/');
    if head.len() > 0 {
        assert(head[0] == path[0]);
        lemma_first_part(head);
    } else {
        assert(head =~= Seq::<char>::empty());
        assert(text::split(head, '/') =~= seq![Seq::<char>::empty()]);
    }
}

/// A normalised path has no empty component: no `/` at its start or end, and
/// no two of them in a row.
pub proof fn law_normalized_has_no_empty_component(path: Seq<char>)
    requires
        normalize_fault(path) is None,
    ensures
        forall|i: int|
            0 <= i < text::split(normalized(path), '/').len() ==> (#[trigger] text::split(
                normalized(path),
                '/',
            )[i]).len() > 0,
{
    lemma_collapsed_components(from_here(path));
    text::lemma_nonempty(text::split(from_here(path), '/'));
}

/// A text that starts with `./` has `.` as its first part.
proof fn lemma_starts_here(path: Seq<char>)
    requires
        starts_here(path),
    ensures
        text::split(path, '/').contains("."@),
{
    reveal_strlit(".");
    let dot = seq!['.'];
    assert("."@ =~= dot);
    assert(path =~= dot + seq!['/'] + path.skip(2));
    text::lemma_split_concat(dot, path.skip(2), '/');
    assert(dot.drop_last() =~= Seq::<char>::empty());
    assert(text::split(dot.drop_last(), '/') =~= seq![Seq::<char>::empty()]);
    assert(text::split(dot, '/') =~= seq![dot]);
    assert(text::split(path, '/')[0] == dot);
}

/// An accepted path does not start with `./`.
pub(crate) proof fn lemma_accepted_from_here(path: Seq<char>)
    requires
        relative_fault(path) is None,
    ensures
        from_here(path) == path,
{
    if starts_here(path) {
        lemma_starts_here(path);
        law_accepted_path_has_no_dots(path);
    }
}

/// Normalising once is enough.
pub proof fn law_normalize_is_idempotent(path: Seq<char>)
    requires
        normalize_fault(path) is None,
    ensures
        normalized(normalized(path)) == normalized(path),
{
    let rest = from_here(path);
    law_normalized_is_accepted(path);
    lemma_accepted_from_here(normalized(path));
    lemma_collapsed_components(rest);
    text::lemma_nonempty(text::split(rest, '/'));
    text::lemma_nonempty_fixed(text::nonempty(text::split(rest, '/')));
}

/// A leading `./` says nothing: a path is normalised to the same with it and
/// without.
pub proof fn law_leading_dot_says_nothing(path: Seq<char>)
    requires
        normalize_fault(path) is None,
        !starts_here(path),
    ensures
        normalize_fault(seq!['.', '/'] + path) is None,
        normalized(seq!['.', '/'] + path) == normalized(path),
{
    let dotted = seq!['.', '/'] + path;
    assert(from_here(dotted) =~= path);
    if dotted.contains('\\') {
        let i = choose|i: int| 0 <= i < dotted.len() && dotted[i] == '\\';
        assert(path[i - 2] == '\\');
    }
}

proof fn lemma_dots_append(a: Seq<Seq<char>>, b: Seq<Seq<char>>)
    ensures
        without_dots(a + b) == without_dots(a) + without_dots(b),
    decreases b.len(),
{
    if b.len() == 0 {
        assert(a + b =~= a);
        assert(without_dots(a) + without_dots(b) =~= without_dots(a));
    } else {
        assert((a + b).drop_last() =~= a + b.drop_last());
        assert((a + b).last() == b.last());
        lemma_dots_append(a, b.drop_last());
        assert(without_dots(a + b) =~= without_dots(a) + without_dots(b));
    }
}

proof fn lemma_no_dots_stays(parts: Seq<Seq<char>>)
    requires
        !parts.contains("."@),
    ensures
        without_dots(parts) == parts,
    decreases parts.len(),
{
    if parts.len() > 0 {
        let head = parts.drop_last();
        assert(!head.contains("."@)) by {
            if head.contains("."@) {
                let k = choose|k: int| 0 <= k < head.len() && head[k] == "."@;
                assert(parts[k] == "."@);
            }
        }
        assert(parts[parts.len() - 1] != "."@);
        lemma_no_dots_stays(head);
        assert(without_dots(parts) =~= parts);
    }
}

/// What is joined to a mount point takes the steps of the mount point and then
/// those to the components of the relative path, none of which is `.` or `..`;
/// so it lies in the mount point.
pub proof fn law_joined_path_stays_below(mount: Seq<char>, relative: Seq<char>)
    requires
        relative_fault(relative) is None,
    ensures
        steps(below(mount, relative)) == steps(mount) + text::nonempty(text::split(relative, '/')),
        lies_in(below(mount, relative), mount),
        !text::split(relative, '/').contains("."@),
        !text::split(relative, '/').contains(".."@),
{
    law_accepted_path_has_no_dots(relative);
    let whole = below(mount, relative);
    let m = text::split(mount, '/');
    let r = text::split(relative, '/');
    let mp = text::nonempty(m);
    let rp = text::nonempty(r);
    if mount.len() == 0 {
        assert(mount + relative =~= relative);
        assert(mount =~= Seq::<char>::empty());
        assert(m =~= seq![Seq::<char>::empty()]);
        assert(m.last().len() == 0);
        assert(m.drop_last() =~= Seq::<Seq<char>>::empty());
        assert(text::nonempty(m.drop_last()) =~= Seq::<Seq<char>>::empty());
        assert(mp =~= Seq::<Seq<char>>::empty());
        assert(mp + rp =~= rp);
    } else if mount.last() == '/' {
        let head = mount.drop_last();
        assert(mount + relative =~= head + seq!['/'] + relative);
        text::lemma_split_concat(head, relative, '/');
        text::lemma_nonempty_append(text::split(head, '/'), r);
        assert(m.drop_last() =~= text::split(head, '/'));
        assert(mp == text::nonempty(text::split(head, '/')));
    } else {
        text::lemma_split_concat(mount, relative, '/');
        text::lemma_nonempty_append(m, r);
    }
    assert(text::nonempty(text::split(whole, '/')) == mp + rp);
    text::lemma_nonempty(r);
    assert(!rp.contains("."@)) by {
        if rp.contains("."@) {
            let k = choose|k: int| 0 <= k < rp.len() && rp[k] == "."@;
            assert(r.contains(rp[k]));
        }
    }
    lemma_dots_append(mp, rp);
    lemma_no_dots_stays(rp);
    if mount.len() > 0 {
        assert(whole[0] == mount[0]);
        if mount[0] != '/' {
            lemma_first_part(mount);
            text::lemma_nonempty(m);
            assert(mp.contains(m[0]));
            assert((mp + rp)[0] == mp[0]);
        }
    } else {
        assert(without_dots(mp) =~= Seq::<Seq<char>>::empty());
        if rp.len() > 0 {
            assert(rp[0] != "."@) by {
                assert(rp.contains(rp[0]));
            }
        }
    }
    assert(steps(whole) =~= steps(mount) + rp);
    assert(steps(whole).take(steps(mount).len() as int) =~= steps(mount));
}

/// A character of a part is a character of the text.
proof fn lemma_part_chars(s: Seq<char>, sep: char, k: int, c: char)
    requires
        0 <= k < text::split(s, sep).len(),
        text::split(s, sep)[k].contains(c),
    ensures
        s.contains(c),
    decreases s.len(),
{
    if s.len() > 0 {
        let head = s.drop_last();
        let before = text::split(head, sep);
        let parts = text::split(s, sep);
        text::lemma_split_parts(head, sep);
        let i = choose|i: int| 0 <= i < parts[k].len() && parts[k][i] == c;
        if k < before.len() - 1 || s.last() == sep {
            if k < before.len() {
                assert(parts[k] == before[k]);
                lemma_part_chars(head, sep, k, c);
                let j = choose|j: int| 0 <= j < head.len() && head[j] == c;
                assert(s[j] == c);
            }
        } else if i < before.last().len() {
            assert(before.last()[i] == c);
            lemma_part_chars(head, sep, before.len() - 1, c);
            let j = choose|j: int| 0 <= j < head.len() && head[j] == c;
            assert(s[j] == c);
        } else {
            assert(s[s.len() - 1] == c);
        }
    }
}

/// A character of a joined text is one of the separator or of a part.
proof fn lemma_joined_chars(parts: Seq<Seq<char>>, sep: char, c: char)
    requires
        text::joined(parts, seq![sep]).contains(c),
        c != sep,
    ensures
        exists|k: int| 0 <= k < parts.len() && (#[trigger] parts[k]).contains(c),
    decreases parts.len(),
{
    let s = text::joined(parts, seq![sep]);
    let i = choose|i: int| 0 <= i < s.len() && s[i] == c;
    if parts.len() == 1 {
        assert(parts[0].contains(c));
    } else if parts.len() > 1 {
        let head = text::joined(parts.drop_last(), seq![sep]);
        if i < head.len() {
            assert(head[i] == c);
            lemma_joined_chars(parts.drop_last(), sep, c);
            let k = choose|k: int|
                0 <= k < parts.drop_last().len() && (#[trigger] parts.drop_last()[k]).contains(c);
            assert(parts[k].contains(c));
        } else if i > head.len() {
            let last = parts[parts.len() - 1];
            assert(last[i - head.len() - 1] == c);
            assert(last.contains(c));
        }
    }
}

/// Collapsing brings no character in but the separator.
proof fn lemma_collapsed_chars(path: Seq<char>, c: char)
    requires
        collapsed(path).contains(c),
        c != '/',
    ensures
        path.contains(c),
{
    let parts = text::split(path, '/');
    let kept = text::nonempty(parts);
    lemma_joined_chars(kept, '/', c);
    let k = choose|k: int| 0 <= k < kept.len() && (#[trigger] kept[k]).contains(c);
    text::lemma_nonempty(parts);
    assert(parts.contains(kept[k]));
    let i = choose|i: int| 0 <= i < parts.len() && parts[i] == kept[k];
    lemma_part_chars(path, '/', i, c);
}

/// A text that starts with the separator has an empty first part.
proof fn lemma_leading_separator(s: Seq<char>, sep: char)
    requires
        s.len() > 0,
        s[0] == sep,
    ensures
        text::split(s, sep)[0].len() == 0,
        text::split(s, sep).len() > 1,
    decreases s.len(),
{
    let head = s.drop_last();
    text::lemma_split_parts(head, sep);
    if head.len() > 0 {
        lemma_leading_separator(head, sep);
    } else {
        assert(text::split(head, sep) =~= seq![Seq::<char>::empty()]);
    }
}

/// What is normalised is accepted as it is, as a relative path and as one to
/// normalise.
pub proof fn law_normalized_is_accepted(path: Seq<char>)
    requires
        normalize_fault(path) is None,
    ensures
        relative_fault(normalized(path)) is None,
        normalize_fault(normalized(path)) is None,
{
    let n = normalized(path);
    let rest = from_here(path);
    if n.contains('\\') {
        lemma_collapsed_chars(rest, '\\');
        let i = choose|i: int| 0 <= i < rest.len() && rest[i] == '\\';
        assert(path[i + path.len() - rest.len()] == '\\');
    }
    if n.contains('\0') {
        lemma_collapsed_chars(rest, '\0');
    }
    law_normalized_has_no_empty_component(path);
    text::lemma_split_parts(n, '/');
    if n.len() == 0 {
        assert(n =~= Seq::<char>::empty());
        assert(text::split(n, '/')[0].len() == 0);
    } else if n[0] == '/' {
        lemma_leading_separator(n, '/');
    }
    lemma_collapsed_components(rest);
    lemma_no_dots(text::split(rest, '/'));
    lemma_no_dots(text::split(n, '/'));
    let parts = text::split(rest, '/');
    let kept = text::split(n, '/');
    text::lemma_nonempty(parts);
    assert forall|d: Seq<char>| kept.contains(d) implies parts.contains(d) by {
        let k = choose|k: int| 0 <= k < kept.len() && kept[k] == d;
        assert(text::nonempty(parts)[k] == d);
    }
    lemma_accepted_from_here(n);
}

/// Just those paths are accepted that are not empty, do not start at the root,
/// hold no NUL, and have no component of dots.
pub proof fn law_plain_relative_paths_are_accepted(path: Seq<char>)
    ensures
        relative_fault(path) is None <==> path.len() > 0 && path[0] != '/' && !path.contains('\0')
            && !text::split(path, '/').contains("."@) && !text::split(path, '/').contains(".."@),
        normalize_fault(path) is None && !starts_here(path) <==> relative_fault(path) is None
            && !path.contains('\\'),
{
    lemma_no_dots(text::split(path, '/'));
    if relative_fault(path) is None && starts_here(path) {
        lemma_starts_here(path);
    }
}

/// Normalising a path keeps its components, in their order.
pub proof fn law_normalizing_keeps_components(path: Seq<char>)
    requires
        normalize_fault(path) is None,
        !starts_here(path),
    ensures
        text::split(normalized(path), '/') == text::nonempty(text::split(path, '/')),
{
    lemma_collapsed_components(from_here(path));
}

} // verus!

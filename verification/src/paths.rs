//! The path-traversal check for local images: a path, with `.` and `..`
//! resolved by hand (without asking the file system), must stay inside the
//! document's directory.
use vstd::prelude::*;
use crate::text::{eq_chars, string_chars};

verus! {

/// A component of a path, as `std::path::Path::components` yields it.
#[derive(Debug, Clone)]
pub enum PathPart {
    Prefix(String),
    RootDir,
    CurDir,
    ParentDir,
    Normal(String),
}

/// A component of a resolved path.
pub enum Part {
    Prefix(Seq<char>),
    Root,
    Name(Seq<char>),
}

/// One component pushed onto a resolved path the way `PathBuf::push` and
/// `PathBuf::pop` treat it: a name is appended, `.` is skipped, `..` drops
/// the last name (never the root or prefix), a root replaces all but a
/// prefix, and a prefix replaces everything.
pub open spec fn push_part(acc: Seq<Part>, p: PathPart) -> Seq<Part> {
    match p {
        PathPart::Normal(s) => acc.push(Part::Name(s@)),
        PathPart::CurDir => acc,
        PathPart::ParentDir => if acc.len() > 0 && acc.last() is Name {
            acc.drop_last()
        } else {
            acc
        },
        PathPart::RootDir => if acc.len() > 0 && acc[0] is Prefix {
            seq![acc[0], Part::Root]
        } else {
            seq![Part::Root]
        },
        PathPart::Prefix(s) => seq![Part::Prefix(s@)],
    }
}

/// The path the components resolve to.
pub open spec fn resolve(parts: Seq<PathPart>) -> Seq<Part>
    decreases parts.len(),
{
    if parts.len() == 0 {
        Seq::empty()
    } else {
        push_part(resolve(parts.drop_last()), parts.last())
    }
}

/// `a` begins with the components of `b`.
pub open spec fn has_prefix(a: Seq<Part>, b: Seq<Part>) -> bool {
    b.len() <= a.len() && a.subrange(0, b.len() as int) == b
}

/// A resolved component, as the executable code holds it.
#[derive(Debug, Clone)]
pub enum ResolvedPart {
    Prefix(Vec<char>),
    Root,
    Name(Vec<char>),
}

pub open spec fn resolved_view(p: ResolvedPart) -> Part {
    match p {
        ResolvedPart::Prefix(s) => Part::Prefix(s@),
        ResolvedPart::Root => Part::Root,
        ResolvedPart::Name(s) => Part::Name(s@),
    }
}

pub open spec fn resolved_seq(v: Seq<ResolvedPart>) -> Seq<Part> {
    Seq::new(v.len(), |i: int| resolved_view(v[i]))
}

/// The components resolved without touching the file system.
pub fn resolve_parts(parts: &[PathPart]) -> (r: Vec<ResolvedPart>)
    ensures
        resolved_seq(r@) == resolve(parts@),
{
    let mut acc: Vec<ResolvedPart> = Vec::new();
    let mut i: usize = 0;
    assert(resolved_seq(acc@) =~= Seq::<Part>::empty());
    while i < parts.len()
        invariant
            i <= parts@.len(),
            resolved_seq(acc@) == resolve(parts@.subrange(0, i as int)),
        decreases parts@.len() - i,
    {
        let ghost before = resolved_seq(acc@);
        assert(parts@.subrange(0, i + 1).drop_last() == parts@.subrange(0, i as int));
        match &parts[i] {
            PathPart::Normal(s) => {
                acc.push(ResolvedPart::Name(string_chars(s)));
                assert(resolved_seq(acc@) =~= before.push(Part::Name(s@)));
            },
            PathPart::CurDir => {},
            PathPart::ParentDir => {
                let n = acc.len();
                if n > 0 {
                    let is_name = match &acc[n - 1] {
                        ResolvedPart::Name(_) => true,
                        _ => false,
                    };
                    if is_name {
                        acc.pop();
                        assert(resolved_seq(acc@) =~= before.drop_last());
                    }
                }
            },
            PathPart::RootDir => {
                let mut next: Vec<ResolvedPart> = Vec::new();
                if acc.len() > 0 {
                    match &acc[0] {
                        ResolvedPart::Prefix(p) => {
                            next.push(ResolvedPart::Prefix(p.clone()));
                        },
                        _ => {},
                    }
                }
                next.push(ResolvedPart::Root);
                proof {
                    if before.len() > 0 && before[0] is Prefix {
                        assert(resolved_seq(next@) =~= seq![before[0], Part::Root]);
                    } else {
                        assert(resolved_seq(next@) =~= seq![Part::Root]);
                    }
                }
                acc = next;
            },
            PathPart::Prefix(s) => {
                let mut next: Vec<ResolvedPart> = Vec::new();
                next.push(ResolvedPart::Prefix(string_chars(s)));
                assert(resolved_seq(next@) =~= seq![Part::Prefix(s@)]);
                acc = next;
            },
        }
        i += 1;
    }
    assert(parts@.subrange(0, parts@.len() as int) == parts@);
    acc
}

fn same_part(a: &ResolvedPart, b: &ResolvedPart) -> (r: bool)
    ensures
        r == (resolved_view(*a) == resolved_view(*b)),
{
    match (a, b) {
        (ResolvedPart::Prefix(x), ResolvedPart::Prefix(y)) => eq_chars(x.as_slice(), y.as_slice()),
        (ResolvedPart::Root, ResolvedPart::Root) => true,
        (ResolvedPart::Name(x), ResolvedPart::Name(y)) => eq_chars(x.as_slice(), y.as_slice()),
        _ => false,
    }
}

/// Whether the path made of `joined` stays inside the directory made of
/// `base` once `.` and `..` are resolved: the resolved base is a leading
/// part of the resolved path.
pub fn path_stays_within(joined: &[PathPart], base: &[PathPart]) -> (r: bool)
    ensures
        r == has_prefix(resolve(joined@), resolve(base@)),
{
    let a = resolve_parts(joined);
    let b = resolve_parts(base);
    if b.len() > a.len() {
        return false;
    }
    let ghost av = resolved_seq(a@);
    let ghost bv = resolved_seq(b@);
    let mut i: usize = 0;
    while i < b.len()
        invariant
            i <= b@.len() <= a@.len(),
            av == resolved_seq(a@),
            bv == resolved_seq(b@),
            av == resolve(joined@),
            bv == resolve(base@),
            forall|k: int| 0 <= k < i ==> #[trigger] av[k] == bv[k],
        decreases b@.len() - i,
    {
        if !same_part(&a[i], &b[i]) {
            assert(av.subrange(0, bv.len() as int)[i as int] != bv[i as int]);
            return false;
        }
        i += 1;
    }
    assert(av.subrange(0, bv.len() as int) =~= bv);
    true
}

// ----- law -----

pub open spec fn plain_names(parts: Seq<PathPart>) -> bool {
    forall|i: int| 0 <= i < parts.len() ==> (#[trigger] parts[i] is Normal || parts[i] is CurDir)
}

proof fn lemma_resolve_append(base: Seq<PathPart>, rel: Seq<PathPart>)
    requires
        plain_names(rel),
    ensures
        has_prefix(resolve(base + rel), resolve(base)),
    decreases rel.len(),
{
    if rel.len() == 0 {
        assert(base + rel == base);
        assert(resolve(base).subrange(0, resolve(base).len() as int) == resolve(base));
    } else {
        let init = rel.drop_last();
        assert(plain_names(init)) by {
            assert forall|i: int| 0 <= i < init.len() implies (#[trigger] init[i] is Normal || init[i] is CurDir) by {
                assert(init[i] == rel[i]);
            }
        }
        lemma_resolve_append(base, init);
        assert((base + rel).drop_last() == base + init);
        assert((base + rel).last() == rel.last());
        let prev = resolve(base + init);
        let rb = resolve(base);
        match rel.last() {
            PathPart::Normal(s) => {
                assert(prev.push(Part::Name(s@)).subrange(0, rb.len() as int) =~= prev.subrange(0, rb.len() as int));
            },
            _ => {},
        }
    }
}

/// A relative path made only of names and `.` never leaves the directory it
/// is joined to.
pub proof fn plain_relative_paths_stay_within(base: Seq<PathPart>, rel: Seq<PathPart>)
    requires
        plain_names(rel),
    ensures
        has_prefix(resolve(base + rel), resolve(base)),
{
    lemma_resolve_append(base, rel);
}


/// A resolved path that begins at a root or a prefix rather than a name.
pub open spec fn starts_outside(r: Seq<Part>) -> bool {
    r.len() > 0 && !(r[0] is Name)
}

proof fn lemma_root_stays(parts: Seq<PathPart>, k: int)
    requires
        0 <= k < parts.len(),
        parts[k] is RootDir,
    ensures
        starts_outside(resolve(parts)),
    decreases parts.len(),
{
    let init = parts.drop_last();
    if k < parts.len() - 1 {
        assert(init[k] == parts[k]);
        lemma_root_stays(init, k);
        let acc = resolve(init);
        match parts.last() {
            PathPart::Normal(n) => {
                assert(acc.push(Part::Name(n@))[0] == acc[0]);
            },
            PathPart::ParentDir => {
                if acc.len() > 0 && acc.last() is Name {
                    assert(acc.len() > 1);
                    assert(acc.drop_last()[0] == acc[0]);
                }
            },
            _ => {},
        }
    } else {
        assert(parts.last() == parts[k]);
    }
}

pub open spec fn plain_base(base: Seq<PathPart>) -> bool {
    base.len() > 0 && forall|i: int| 0 <= i < base.len() ==> (#[trigger] base[i] is Normal)
}

proof fn lemma_plain_resolves_to_names(base: Seq<PathPart>)
    requires
        forall|i: int| 0 <= i < base.len() ==> (#[trigger] base[i] is Normal),
    ensures
        resolve(base).len() == base.len(),
        forall|i: int| 0 <= i < base.len() ==> (#[trigger] resolve(base)[i] is Name),
    decreases base.len(),
{
    if base.len() > 0 {
        let init = base.drop_last();
        assert forall|i: int| 0 <= i < init.len() implies (#[trigger] init[i] is Normal) by {
            assert(init[i] == base[i]);
        }
        lemma_plain_resolves_to_names(init);
        assert(base.last() == base[base.len() - 1]);
    }
}

/// A relative image path that names the root again never stays inside a
/// directory given by plain names: the path it resolves to starts at the
/// root (or at a drive prefix), not at a name.
pub proof fn rooted_paths_leave_plain_directories(base: Seq<PathPart>, rel: Seq<PathPart>, k: int)
    requires
        plain_base(base),
        0 <= k < rel.len(),
        rel[k] is RootDir,
    ensures
        !has_prefix(resolve(base + rel), resolve(base)),
{
    let all = base + rel;
    assert(all[base.len() + k] == rel[k]);
    lemma_root_stays(all, base.len() + k);
    lemma_plain_resolves_to_names(base);
    if has_prefix(resolve(all), resolve(base)) {
        assert(resolve(all).subrange(0, resolve(base).len() as int)[0] == resolve(all)[0]);
        assert(resolve(base)[0] is Name);
    }
}

} // verus!

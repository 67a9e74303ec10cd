//! A file path as plain data, and the path mapper that derives an output
//! path from a source path, an input root, an output root and the flatten
//! policy.

use vstd::pervasive::VecAdditionalExecFns;
use vstd::prelude::*;

verus! {

/// The path separator byte (`/`).
pub const SLASH: u8 = 47;

/// The extension separator byte (`.`).
pub const DOT: u8 = 46;

/// A path component: nonempty and free of the separator.
pub open spec fn valid_component(c: Seq<u8>) -> bool {
    c.len() > 0 && forall|i: int| 0 <= i < c.len() ==> c[i] != SLASH
}

/// A file path as plain data: whether it starts at the root, and its
/// components in order.
pub struct FilePath {
    pub rooted: bool,
    pub components: Vec<Vec<u8>>,
}

/// Copy a byte vector.
fn clone_bytes(v: &Vec<u8>) -> (r: Vec<u8>)
    ensures
        r@ == v@,
{
    let r = v.clone();
    proof {
        assert(r@ =~= v@);
    }
    r
}

/// Check that one component is nonempty and free of the separator.
fn component_ok(c: &Vec<u8>) -> (r: bool)
    ensures
        r == valid_component(c@),
{
    if c.len() == 0 {
        return false;
    }
    let mut i: usize = 0;
    while i < c.len()
        invariant
            i <= c@.len(),
            forall|j: int| 0 <= j < i ==> c@[j] != SLASH,
        decreases c@.len() - i,
    {
        if c[i] == SLASH {
            return false;
        }
        i = i + 1;
    }
    true
}

impl FilePath {
    /// The components as mathematical sequences of bytes.
    pub open spec fn comps(&self) -> Seq<Seq<u8>> {
        self.components@.map_values(|c: Vec<u8>| c@)
    }

    /// Every component is nonempty and free of the separator.
    pub open spec fn wf(&self) -> bool {
        forall|i: int| 0 <= i < self.comps().len() ==> valid_component(#[trigger] self.comps()[i])
    }

    /// Build a path, accepting it only if every component is valid.
    pub fn new(rooted: bool, components: Vec<Vec<u8>>) -> (r: Option<FilePath>)
        ensures
            r is Some <==> forall|i: int|
                0 <= i < components@.len() ==> valid_component(#[trigger] components@[i]@),
            r matches Some(p) ==> p.rooted == rooted && p.comps() == components@.map_values(
                |c: Vec<u8>| c@,
            ) && p.wf(),
    {
        let mut i: usize = 0;
        while i < components.len()
            invariant
                i <= components@.len(),
                forall|j: int| 0 <= j < i ==> valid_component(#[trigger] components@[j]@),
            decreases components@.len() - i,
        {
            if !component_ok(&components[i]) {
                return None;
            }
            i = i + 1;
        }
        let p = FilePath { rooted, components };
        proof {
            assert forall|k: int| 0 <= k < p.comps().len() implies valid_component(
                #[trigger] p.comps()[k],
            ) by {
                assert(p.comps()[k] == p.components@[k]@);
            }
        }
        Some(p)
    }

    /// Check that every component of this path is valid.
    pub fn check_wf(&self) -> (r: bool)
        ensures
            r == self.wf(),
    {
        let mut i: usize = 0;
        while i < self.components.len()
            invariant
                i <= self.comps().len(),
                forall|j: int| 0 <= j < i ==> valid_component(#[trigger] self.comps()[j]),
            decreases self.comps().len() - i,
        {
            proof {
                assert(self.comps()[i as int] == self.components@[i as int]@);
            }
            if !component_ok(&self.components[i]) {
                return false;
            }
            i = i + 1;
        }
        true
    }

    /// A copy of this path.
    pub fn duplicate(&self) -> (r: FilePath)
        ensures
            r.rooted == self.rooted,
            r.comps() == self.comps(),
    {
        let mut components: Vec<Vec<u8>> = Vec::new();
        let mut i: usize = 0;
        while i < self.components.len()
            invariant
                i <= self.components@.len(),
                components@.len() == i,
                forall|j: int| 0 <= j < i ==> components@[j]@ == #[trigger] self.components@[j]@,
            decreases self.components@.len() - i,
        {
            components.push(clone_bytes(&self.components[i]));
            i = i + 1;
        }
        let r = FilePath { rooted: self.rooted, components };
        proof {
            assert(r.comps() =~= self.comps());
        }
        r
    }

    /// The final component, if any.
    pub fn file_name(&self) -> (r: Option<Vec<u8>>)
        ensures
            self.comps().len() > 0 ==> (r matches Some(c) && c@ == self.comps().last()),
            self.comps().len() == 0 ==> r is None,
    {
        if self.components.len() > 0 {
            Some(clone_bytes(&self.components[self.components.len() - 1]))
        } else {
            None
        }
    }

    /// The path without its final component, if any.
    pub fn parent(&self) -> (r: Option<FilePath>)
        ensures
            self.comps().len() == 0 ==> r is None,
            self.comps().len() > 0 ==> (r matches Some(p) && p.rooted == self.rooted && p.comps()
                == self.comps().drop_last()),
    {
        if self.components.len() == 0 {
            return None;
        }
        let mut p = self.duplicate();
        p.components.pop();
        proof {
            assert(p.comps() =~= self.comps().drop_last());
        }
        Some(p)
    }
}

/// Compare two byte vectors.
fn bytes_eq(a: &Vec<u8>, b: &Vec<u8>) -> (r: bool)
    ensures
        r == (a@ == b@),
{
    if a.len() != b.len() {
        return false;
    }
    let mut i: usize = 0;
    while i < a.len()
        invariant
            i <= a@.len(),
            a@.len() == b@.len(),
            forall|j: int| 0 <= j < i ==> a@[j] == b@[j],
        decreases a@.len() - i,
    {
        if a[i] != b[i] {
            return false;
        }
        i = i + 1;
    }
    proof {
        assert(a@ =~= b@);
    }
    true
}

impl FilePath {
    /// The path relative to `base`: defined when the root flags agree and
    /// `base`'s components are a prefix of this path's. The result is never
    /// rooted.
    pub fn strip_prefix(&self, base: &FilePath) -> (r: Option<FilePath>)
        ensures
            r is Some <==> (self.rooted == base.rooted && base.comps().is_prefix_of(self.comps())),
            r matches Some(p) ==> !p.rooted && p.comps() == self.comps().skip(
                base.comps().len() as int,
            ),
    {
        if self.rooted != base.rooted {
            return None;
        }
        if base.components.len() > self.components.len() {
            return None;
        }
        let mut i: usize = 0;
        while i < base.components.len()
            invariant
                i <= base.comps().len() <= self.comps().len(),
                forall|j: int| 0 <= j < i ==> base.comps()[j] == self.comps()[j],
            decreases base.comps().len() - i,
        {
            if !bytes_eq(&self.components[i], &base.components[i]) {
                proof {
                    assert(base.comps()[i as int] != self.comps()[i as int]);
                    if base.comps().is_prefix_of(self.comps()) {
                        assert(base.comps()[i as int] == self.comps().subrange(
                            0,
                            base.comps().len() as int,
                        )[i as int]);
                    }
                }
                return None;
            }
            i = i + 1;
        }
        proof {
            assert(base.comps() =~= self.comps().subrange(0, base.comps().len() as int));
        }
        let mut components: Vec<Vec<u8>> = Vec::new();
        let mut k: usize = base.components.len();
        while k < self.components.len()
            invariant
                base.comps().len() <= k <= self.comps().len(),
                components@.len() == k - base.comps().len(),
                forall|j: int|
                    0 <= j < components@.len() ==> #[trigger] components@[j]@ == self.comps()[j
                        + base.comps().len()],
            decreases self.comps().len() - k,
        {
            components.push(clone_bytes(&self.components[k]));
            k = k + 1;
        }
        let p = FilePath { rooted: false, components };
        proof {
            assert(p.comps() =~= self.comps().skip(base.comps().len() as int));
        }
        Some(p)
    }

    /// Append another path onto this one; a path that is itself rooted
    /// stands alone, as with the standard join rule.
    pub fn join(&self, other: &FilePath) -> (r: FilePath)
        ensures
            other.rooted ==> r.rooted == other.rooted && r.comps() == other.comps(),
            !other.rooted ==> r.rooted == self.rooted && r.comps() == self.comps()
                + other.comps(),
    {
        if other.rooted {
            return other.duplicate();
        }
        let mut r = self.duplicate();
        let mut i: usize = 0;
        while i < other.components.len()
            invariant
                i <= other.comps().len(),
                r.rooted == self.rooted,
                r.comps().len() == self.comps().len() + i,
                forall|j: int| 0 <= j < self.comps().len() ==> r.comps()[j] == self.comps()[j],
                forall|j: int|
                    0 <= j < i ==> r.comps()[self.comps().len() + j] == #[trigger] other.comps()[j],
            decreases other.comps().len() - i,
        {
            r.components.push(clone_bytes(&other.components[i]));
            i = i + 1;
        }
        proof {
            assert(r.comps() =~= self.comps() + other.comps());
        }
        r
    }
}

/// The index of the last `.` among the first `n` bytes, or `-1` if there is
/// none.
pub open spec fn last_dot_before(name: Seq<u8>, n: nat) -> int
    decreases n,
{
    if n == 0 {
        -1
    } else if name[n - 1] == DOT {
        n - 1
    } else {
        last_dot_before(name, (n - 1) as nat)
    }
}

/// The index of the last `.` in a name, or `-1` if there is none.
pub open spec fn last_dot(name: Seq<u8>) -> int {
    last_dot_before(name, name.len())
}

/// A name carries an extension when its last dot is past the first byte;
/// a name that is all extension (a leading dot) carries none.
pub open spec fn has_extension(name: Seq<u8>) -> bool {
    last_dot(name) > 0
}

/// The bytes after the last dot.
pub open spec fn extension_spec(name: Seq<u8>) -> Seq<u8>
    recommends
        has_extension(name),
{
    name.skip(last_dot(name) + 1)
}

/// The bytes before the last dot, or the whole name when it carries no
/// extension.
pub open spec fn stem_spec(name: Seq<u8>) -> Seq<u8> {
    if has_extension(name) {
        name.take(last_dot(name))
    } else {
        name
    }
}

/// The name with its extension replaced: the stem, a dot, then `ext`.
pub open spec fn replace_extension_spec(name: Seq<u8>, ext: Seq<u8>) -> Seq<u8> {
    stem_spec(name) + seq![DOT] + ext
}

/// The recognized input extension, `png`.
pub open spec fn png_ext() -> Seq<u8> {
    seq![112u8, 110u8, 103u8]
}

/// The output extension, `jpg`.
pub open spec fn jpg_ext() -> Seq<u8> {
    seq![106u8, 112u8, 103u8]
}

/// Find the last dot of a name, if any.
fn find_last_dot(name: &Vec<u8>) -> (r: Option<usize>)
    ensures
        r matches Some(i) ==> last_dot(name@) == i && i < name@.len(),
        r is None ==> last_dot(name@) == -1,
{
    let mut i: usize = name.len();
    while i > 0
        invariant
            i <= name@.len(),
            last_dot(name@) == last_dot_before(name@, i as nat),
        decreases i,
    {
        i = i - 1;
        if name[i] == DOT {
            return Some(i);
        }
    }
    None
}

/// Replace a name's extension: keep the stem (the whole name when there is
/// no extension), then a dot, then the new extension.
pub fn replace_extension(name: &Vec<u8>, ext: &Vec<u8>) -> (r: Vec<u8>)
    ensures
        r@ == replace_extension_spec(name@, ext@),
{
    let stem_len: usize = match find_last_dot(name) {
        Some(i) => if i > 0 {
            i
        } else {
            name.len()
        },
        None => name.len(),
    };
    let mut r: Vec<u8> = Vec::new();
    let mut i: usize = 0;
    while i < stem_len
        invariant
            i <= stem_len,
            stem_len <= name@.len(),
            r@ =~= name@.take(i as int),
        decreases stem_len - i,
    {
        r.push(name[i]);
        i = i + 1;
    }
    r.push(DOT);
    let mut j: usize = 0;
    while j < ext.len()
        invariant
            j <= ext@.len(),
            r@ =~= name@.take(stem_len as int) + seq![DOT] + ext@.take(j as int),
        decreases ext@.len() - j,
    {
        r.push(ext[j]);
        j = j + 1;
    }
    proof {
        assert(stem_spec(name@) =~= name@.take(stem_len as int));
        assert(r@ =~= replace_extension_spec(name@, ext@));
    }
    r
}

/// Whether a path names a file with the recognized input extension.
pub open spec fn is_png_spec(p: &FilePath) -> bool {
    p.comps().len() > 0 && has_extension(p.comps().last()) && extension_spec(p.comps().last())
        == png_ext()
}

/// Whether a path's final component carries the recognized input extension.
pub fn is_png(f: &FilePath) -> (r: bool)
    ensures
        r == is_png_spec(f),
{
    if f.components.len() == 0 {
        return false;
    }
    let name = &f.components[f.components.len() - 1];
    proof {
        assert(name@ == f.comps().last());
    }
    match find_last_dot(name) {
        Some(i) => {
            if i == 0 {
                return false;
            }
            if name.len() - i != 4 {
                proof {
                    if has_extension(name@) {
                        assert(extension_spec(name@).len() != 3);
                    }
                }
                return false;
            }
            let r = name[i + 1] == 112 && name[i + 2] == 110 && name[i + 3] == 103;
            proof {
                if r {
                    assert(extension_spec(name@) =~= png_ext());
                } else {
                    assert(extension_spec(name@) != png_ext()) by {
                        if extension_spec(name@) == png_ext() {
                            assert(extension_spec(name@)[0] == 112u8);
                            assert(extension_spec(name@)[1] == 110u8);
                            assert(extension_spec(name@)[2] == 103u8);
                        }
                    }
                }
            }
            r
        },
        None => false,
    }
}

/// The output extension as bytes.
fn jpg_bytes() -> (r: Vec<u8>)
    ensures
        r@ == jpg_ext(),
{
    let mut v: Vec<u8> = Vec::new();
    v.push(106);
    v.push(112);
    v.push(103);
    proof {
        assert(v@ =~= jpg_ext());
    }
    v
}

/// The destination a source file maps to, as plain data: the root flag and
/// the components. With `flatten`, the output root plus the source's file
/// name; otherwise the output root plus the source's path relative to the
/// input root; in either case the final component takes the output
/// extension. `None` where the source has no file name, or does not lie
/// strictly under the input root when mirroring.
pub open spec fn map_dest_spec(
    from: &FilePath,
    input_root: &FilePath,
    output_root: &FilePath,
    flatten: bool,
) -> Option<(bool, Seq<Seq<u8>>)> {
    if flatten {
        if from.comps().len() == 0 {
            None
        } else {
            Some(
                (
                    output_root.rooted,
                    output_root.comps().push(
                        replace_extension_spec(from.comps().last(), jpg_ext()),
                    ),
                ),
            )
        }
    } else {
        if from.rooted == input_root.rooted && input_root.comps().is_prefix_of(from.comps())
            && from.comps().len() > input_root.comps().len() {
            let rel = from.comps().skip(input_root.comps().len() as int);
            Some(
                (
                    output_root.rooted,
                    output_root.comps() + rel.update(
                        rel.len() - 1,
                        replace_extension_spec(rel.last(), jpg_ext()),
                    ),
                ),
            )
        } else {
            None
        }
    }
}

/// Compute the destination path for a source file, under the configured
/// naming policy.
pub fn newfname_from_origfname(
    from: &FilePath,
    input_root: &FilePath,
    output_root: &FilePath,
    flatten: bool,
) -> (r: Option<FilePath>)
    ensures
        r is Some <==> map_dest_spec(from, input_root, output_root, flatten) is Some,
        r matches Some(p) ==> p.rooted == map_dest_spec(
            from,
            input_root,
            output_root,
            flatten,
        ).unwrap().0 && p.comps() == map_dest_spec(from, input_root, output_root, flatten).unwrap().1,
{
    if flatten {
        match from.file_name() {
            Some(name) => {
                let ext = jpg_bytes();
                let new_name = replace_extension(&name, &ext);
                let mut p = output_root.duplicate();
                p.components.push(new_name);
                proof {
                    assert(p.comps() =~= output_root.comps().push(
                        replace_extension_spec(from.comps().last(), jpg_ext()),
                    ));
                }
                Some(p)
            },
            None => None,
        }
    } else {
        match from.strip_prefix(input_root) {
            Some(rel) => {
                if rel.components.len() == 0 {
                    return None;
                }
                let mut rel = rel;
                let last = rel.components.len() - 1;
                let ext = jpg_bytes();
                let new_name = replace_extension(&rel.components[last], &ext);
                rel.components.set(last, new_name);
                let p = output_root.join(&rel);
                proof {
                    let relspec = from.comps().skip(input_root.comps().len() as int);
                    assert(rel.comps() =~= relspec.update(
                        relspec.len() - 1,
                        replace_extension_spec(relspec.last(), jpg_ext()),
                    ));
                }
                Some(p)
            },
            None => None,
        }
    }
}

/// Resolve a configured path against a home directory: a rooted path stands
/// as given, any other is taken relative to the home path.
pub fn resolve_path(path: &FilePath, home: &FilePath) -> (r: FilePath)
    ensures
        path.rooted ==> r.rooted == path.rooted && r.comps() == path.comps(),
        !path.rooted ==> r.rooted == home.rooted && r.comps() == home.comps() + path.comps(),
{
    home.join(path)
}

/// Bounds for the last-dot search: the index lies below `n`, a found index
/// carries a dot, and no dot stands after it.
pub proof fn lemma_last_dot_bounds(name: Seq<u8>, n: nat)
    ensures
        -1 <= last_dot_before(name, n) < n,
        last_dot_before(name, n) >= 0 ==> name[last_dot_before(name, n)] == DOT,
        forall|j: int| last_dot_before(name, n) < j < n ==> name[j] != DOT,
    decreases n,
{
    if n == 0 {
    } else if name[n - 1] == DOT {
    } else {
        lemma_last_dot_bounds(name, (n - 1) as nat);
    }
}

/// Where a dot stands with none after it, the last-dot search finds it.
pub proof fn lemma_last_dot_locate(name: Seq<u8>, n: nat, k: int)
    requires
        0 <= k < n,
        name[k] == DOT,
        forall|j: int| k < j < n ==> name[j] != DOT,
    ensures
        last_dot_before(name, n) == k,
    decreases n,
{
    if n - 1 > k {
        lemma_last_dot_locate(name, (n - 1) as nat, k);
    }
}

/// Replacing an extension yields a name that carries exactly the new
/// extension, when the new extension holds no dot.
pub proof fn lemma_replace_extension_result(name: Seq<u8>, ext: Seq<u8>)
    requires
        name.len() > 0,
        forall|i: int| 0 <= i < ext.len() ==> ext[i] != DOT,
    ensures
        has_extension(replace_extension_spec(name, ext)),
        extension_spec(replace_extension_spec(name, ext)) == ext,
{
    lemma_last_dot_bounds(name, name.len());
    let stem = stem_spec(name);
    let r = replace_extension_spec(name, ext);
    assert(stem.len() > 0);
    assert(r[stem.len() as int] == DOT);
    assert(forall|j: int| stem.len() < j < r.len() ==> r[j] == ext[j - stem.len() - 1]);
    lemma_last_dot_locate(r, r.len(), stem.len() as int);
    assert(extension_spec(r) =~= ext);
}

/// A mapped destination's file name always carries the output extension,
/// whatever extension the source had.
pub proof fn lemma_map_dest_extension(
    from: &FilePath,
    input_root: &FilePath,
    output_root: &FilePath,
    flatten: bool,
)
    requires
        from.wf(),
        map_dest_spec(from, input_root, output_root, flatten) is Some,
    ensures
        ({
            let d = map_dest_spec(from, input_root, output_root, flatten).unwrap();
            d.1.len() > 0 && has_extension(d.1.last()) && extension_spec(d.1.last()) == jpg_ext()
        }),
{
    let d = map_dest_spec(from, input_root, output_root, flatten).unwrap();
    let name = from.comps().last();
    assert(valid_component(name));
    assert(forall|i: int| 0 <= i < jpg_ext().len() ==> jpg_ext()[i] != DOT);
    if flatten {
        assert(d.1.last() == replace_extension_spec(name, jpg_ext()));
    } else {
        let rel = from.comps().skip(input_root.comps().len() as int);
        assert(rel.last() == name);
        assert(d.1.last() == replace_extension_spec(name, jpg_ext()));
    }
    lemma_replace_extension_result(name, jpg_ext());
}

/// Swapping a name's extension for a dot-free one and back recovers the
/// name exactly.
pub proof fn lemma_extension_round_trip(name: Seq<u8>, ext: Seq<u8>)
    requires
        has_extension(name),
        forall|i: int| 0 <= i < ext.len() ==> ext[i] != DOT,
    ensures
        replace_extension_spec(replace_extension_spec(name, ext), extension_spec(name)) == name,
{
    let ld = last_dot(name);
    lemma_last_dot_bounds(name, name.len());
    let stem = name.take(ld);
    let mid = replace_extension_spec(name, ext);
    assert(mid == stem + seq![DOT] + ext);
    assert(mid[ld] == DOT);
    assert(forall|j: int| ld < j < mid.len() ==> mid[j] == ext[j - ld - 1]);
    lemma_last_dot_locate(mid, mid.len(), ld);
    assert(last_dot(mid) == ld);
    assert(stem_spec(mid) =~= stem);
    assert(replace_extension_spec(mid, extension_spec(name)) =~= name);
}

/// The mirror-policy mapping is reversible: stripping the output root from
/// the destination and swapping the extension back recovers the source's
/// path relative to the input root.
pub proof fn lemma_map_round_trip(from: &FilePath, input_root: &FilePath, output_root: &FilePath)
    requires
        is_png_spec(from),
        map_dest_spec(from, input_root, output_root, false) is Some,
    ensures
        ({
            let d = map_dest_spec(from, input_root, output_root, false).unwrap();
            let rel_out = d.1.skip(output_root.comps().len() as int);
            rel_out.update(
                rel_out.len() - 1,
                replace_extension_spec(rel_out.last(), png_ext()),
            ) == from.comps().skip(input_root.comps().len() as int)
        }),
{
    let d = map_dest_spec(from, input_root, output_root, false).unwrap();
    let rel = from.comps().skip(input_root.comps().len() as int);
    let mapped = rel.update(rel.len() - 1, replace_extension_spec(rel.last(), jpg_ext()));
    let rel_out = d.1.skip(output_root.comps().len() as int);
    assert(rel_out =~= mapped);
    assert(rel.last() == from.comps().last());
    assert(forall|i: int| 0 <= i < jpg_ext().len() ==> jpg_ext()[i] != DOT);
    lemma_extension_round_trip(from.comps().last(), jpg_ext());
    assert(extension_spec(from.comps().last()) == png_ext());
    assert(rel_out.last() == replace_extension_spec(rel.last(), jpg_ext()));
    assert(replace_extension_spec(rel_out.last(), png_ext()) == rel.last());
    assert(rel_out.update(
        rel_out.len() - 1,
        replace_extension_spec(rel_out.last(), png_ext()),
    ) =~= rel);
}

/// With the flatten policy, the destination's parent is exactly the output
/// root, whatever the source's depth.
pub proof fn lemma_map_flatten_parent(
    from: &FilePath,
    input_root: &FilePath,
    output_root: &FilePath,
)
    requires
        map_dest_spec(from, input_root, output_root, true) is Some,
    ensures
        ({
            let d = map_dest_spec(from, input_root, output_root, true).unwrap();
            d.0 == output_root.rooted && d.1.len() == output_root.comps().len() + 1
                && d.1.drop_last() == output_root.comps()
        }),
{
    let d = map_dest_spec(from, input_root, output_root, true).unwrap();
    assert(d.1.drop_last() =~= output_root.comps());
}

} // verus!

use vstd::prelude::*;
use crate::codec::{
    enc_field, field_at, le_bytes, lemma_le_bytes_len, lemma_pow256_8, pow256, push_field, push_u64, read_field, read_u64_at,
};
use crate::kvmap::copy_bytes;

verus! {

/// Where a resource named by a manifest lives.
#[derive(Clone, Debug, PartialEq, Eq, Hash)]
pub enum Location {
    /// Inside the bundle, under this path.
    Bundled(Vec<u8>),
    /// On the local file system.
    Path(Vec<u8>),
    /// At a remote URL.
    Url(Vec<u8>),
}

/// Describes the resources a bundle is made of.
#[derive(Clone, Debug, PartialEq, Eq)]
pub struct Manifest {
    pub locations: Vec<Location>,
}

impl Manifest {
    pub fn new(locations: Vec<Location>) -> (r: Manifest)
        ensures
            r.locations == locations,
    {
        Manifest { locations }
    }

    pub fn locations(&self) -> (r: &Vec<Location>)
        ensures
            r == &self.locations,
    {
        &self.locations
    }
}

/// What went wrong with a bundle.
#[derive(Clone, Debug, PartialEq, Eq)]
pub enum BundleError {
    /// A resource was supplied under a path the manifest does not list as bundled.
    BundledPathNotInManifest(Vec<u8>),
    /// The manifest lists a bundled path for which the bundle holds no resource.
    BundledResourceMissing(Vec<u8>),
    /// Bytes that are not an encoded bundle.
    Malformed,
}

/// The manifest lists `p` as a bundled path.
pub open spec fn is_bundled_in(locs: Seq<Location>, p: Seq<u8>) -> bool {
    exists|i: int| 0 <= i < locs.len() && (#[trigger] locs[i] matches Location::Bundled(q) && q@ == p)
}

/// The map of resources described by a list of pairs, where a later pair
/// overrides an earlier one with the same path.
pub open spec fn resource_map(s: Seq<(Vec<u8>, Vec<u8>)>) -> Map<Seq<u8>, Seq<u8>>
    decreases s.len(),
{
    if s.len() == 0 {
        Map::empty()
    } else {
        resource_map(s.drop_last()).insert(s.last().0@, s.last().1@)
    }
}

/// No path occurs twice in the list.
pub open spec fn paths_unique(s: Seq<(Vec<u8>, Vec<u8>)>) -> bool {
    forall|i: int, j: int| 0 <= i < j < s.len() ==> s[i].0@ != s[j].0@
}

proof fn lemma_resource_absent(s: Seq<(Vec<u8>, Vec<u8>)>, p: Seq<u8>)
    requires
        forall|i: int| 0 <= i < s.len() ==> s[i].0@ != p,
    ensures
        !resource_map(s).contains_key(p),
    decreases s.len(),
{
    if s.len() > 0 {
        lemma_resource_absent(s.drop_last(), p);
    }
}

proof fn lemma_resource_at(s: Seq<(Vec<u8>, Vec<u8>)>, i: int)
    requires
        paths_unique(s),
        0 <= i < s.len(),
    ensures
        resource_map(s).contains_key(s[i].0@),
        resource_map(s)[s[i].0@] == s[i].1@,
    decreases s.len(),
{
    if i < s.len() - 1 {
        lemma_resource_at(s.drop_last(), i);
    }
}

/// Compares two byte vectors.
pub fn bytes_eq(a: &Vec<u8>, b: &Vec<u8>) -> (r: bool)
    ensures
        r == (a@ == b@),
{
    if a.len() != b.len() {
        return false;
    }
    let mut i: usize = 0;
    while i < a.len()
        invariant
            a@.len() == b@.len(),
            i <= a@.len(),
            forall|j: int| 0 <= j < i ==> a@[j] == b@[j],
        decreases a@.len() - i,
    {
        if a[i] != b[i] {
            return false;
        }
        i = i + 1;
    }
    assert(a@ =~= b@);
    true
}

fn find_path(rs: &Vec<(Vec<u8>, Vec<u8>)>, p: &Vec<u8>) -> (r: Option<usize>)
    ensures
        match r {
            Some(i) => i < rs@.len() && rs@[i as int].0@ == p@,
            None => forall|i: int| 0 <= i < rs@.len() ==> rs@[i].0@ != p@,
        },
{
    let mut i: usize = 0;
    while i < rs.len()
        invariant
            i <= rs@.len(),
            forall|j: int| 0 <= j < i ==> rs@[j].0@ != p@,
        decreases rs@.len() - i,
    {
        if bytes_eq(&rs[i].0, p) {
            return Some(i);
        }
        i = i + 1;
    }
    None
}

/// Whether `locs` lists `p` as a bundled path.
pub fn lists_bundled(locs: &Vec<Location>, p: &Vec<u8>) -> (r: bool)
    ensures
        r == is_bundled_in(locs@, p@),
{
    let mut i: usize = 0;
    while i < locs.len()
        invariant
            i <= locs@.len(),
            forall|j: int| 0 <= j < i ==> !(#[trigger] locs@[j] matches Location::Bundled(q) && q@ == p@),
        decreases locs@.len() - i,
    {
        match &locs[i] {
            Location::Bundled(q) => {
                if bytes_eq(q, p) {
                    return true;
                }
            },
            _ => {},
        }
        i = i + 1;
    }
    false
}

/// A manifest together with the resources it lists as bundled.
#[derive(Debug, PartialEq, Eq)]
pub struct Bundle {
    manifest: Manifest,
    resources: Vec<(Vec<u8>, Vec<u8>)>,
}

impl Bundle {
    pub closed spec fn wf(&self) -> bool {
        paths_unique(self.resources@)
    }

    pub closed spec fn spec_manifest(&self) -> Manifest {
        self.manifest
    }

    /// The bundled resources as stored, each path once.
    pub closed spec fn resource_list(&self) -> Seq<(Vec<u8>, Vec<u8>)> {
        self.resources@
    }

    /// The bundled resources, by path.
    pub closed spec fn resources(&self) -> Map<Seq<u8>, Seq<u8>> {
        resource_map(self.resources@)
    }

    /// Bundles `manifest` with `resources`. Every resource path must be
    /// listed by the manifest as bundled; the first one that is not is
    /// reported. Of two resources with the same path, the later one is kept.
    pub fn new(manifest: Manifest, resources: Vec<(Vec<u8>, Vec<u8>)>) -> (r: Result<Bundle, BundleError>)
        ensures
            r is Ok <==> forall|i: int| 0 <= i < resources@.len() ==> is_bundled_in(manifest.locations@, #[trigger] resources@[i].0@),
            r matches Err(e) ==> (exists|i: int| 0 <= i < resources@.len() && !is_bundled_in(manifest.locations@, #[trigger] resources@[i].0@)
                && (forall|j: int| 0 <= j < i ==> is_bundled_in(manifest.locations@, #[trigger] resources@[j].0@))
                && (e matches BundleError::BundledPathNotInManifest(p) && p@ == resources@[i].0@)),
            r matches Ok(b) ==> b.wf() && b.spec_manifest() == manifest && b.resources() == resource_map(resources@),
    {
        let mut i: usize = 0;
        while i < resources.len()
            invariant
                i <= resources@.len(),
                forall|j: int| 0 <= j < i ==> is_bundled_in(manifest.locations@, #[trigger] resources@[j].0@),
            decreases resources@.len() - i,
        {
            if !lists_bundled(&manifest.locations, &resources[i].0) {
                return Err(BundleError::BundledPathNotInManifest(copy_bytes(&resources[i].0)));
            }
            i = i + 1;
        }
        let mut out: Vec<(Vec<u8>, Vec<u8>)> = Vec::new();
        let mut k: usize = 0;
        while k < resources.len()
            invariant
                k <= resources@.len(),
                paths_unique(out@),
                resource_map(out@) == resource_map(resources@.take(k as int)),
            decreases resources@.len() - k,
        {
            let p = copy_bytes(&resources[k].0);
            let v = copy_bytes(&resources[k].1);
            let ghost before = out@;
            match find_path(&out, &p) {
                Some(j) => {
                    out.set(j, (p, v));
                    proof { lemma_replace(before, out@, j as int); }
                },
                None => {
                    out.push((p, v));
                    proof {
                        assert(out@.drop_last() =~= before);
                    }
                },
            }
            k = k + 1;
            proof {
                assert(resources@.take(k as int).drop_last() =~= resources@.take(k - 1));
            }
        }
        assert(resources@.take(k as int) =~= resources@);
        Ok(Bundle { manifest, resources: out })
    }

    /// Encodes the bundle as bytes that `decode` reads back.
    pub fn encode(&self) -> (r: Result<Vec<u8>, BundleError>)
        ensures
            r matches Ok(v) && v@ == enc_bundle(self.spec_manifest().locations@, self.resource_list()),
            self.wf() ==> paths_unique(self.resource_list()),
    {
        let mut out: Vec<u8> = Vec::new();
        let locs = &self.manifest.locations;
        push_u64(&mut out, locs.len() as u64);
        let mut i: usize = 0;
        while i < locs.len()
            invariant
                i <= locs@.len(),
                out@ == le_bytes(locs@.len(), 8) + enc_locations(locs@.take(i as int)),
            decreases locs@.len() - i,
        {
            let ghost before = out@;
            match &locs[i] {
                Location::Bundled(p) => { out.push(0u8); push_field(&mut out, p.as_slice()); },
                Location::Path(p) => { out.push(1u8); push_field(&mut out, p.as_slice()); },
                Location::Url(u) => { out.push(2u8); push_field(&mut out, u.as_slice()); },
            }
            i = i + 1;
            proof {
                assert(locs@.take(i as int).drop_last() =~= locs@.take(i - 1));
                assert(out@ =~= before + enc_location(locs@[i - 1]));
            }
        }
        assert(locs@.take(i as int) =~= locs@);
        let rs = &self.resources;
        push_u64(&mut out, rs.len() as u64);
        let ghost mid = out@;
        let mut k: usize = 0;
        while k < rs.len()
            invariant
                k <= rs@.len(),
                out@ == mid + enc_resources(rs@.take(k as int)),
            decreases rs@.len() - k,
        {
            let ghost before = out@;
            push_field(&mut out, rs[k].0.as_slice());
            push_field(&mut out, rs[k].1.as_slice());
            k = k + 1;
            proof {
                assert(rs@.take(k as int).drop_last() =~= rs@.take(k - 1));
                assert(out@ =~= before + enc_resource(rs@[k - 1]));
            }
        }
        assert(rs@.take(k as int) =~= rs@);
        assert(out@ =~= enc_bundle(locs@, rs@));
        Ok(out)
    }

    /// Reads a bundle from bytes written by `encode`. Every encoding of
    /// locations and resources with distinct paths is read back; any other
    /// bytes are `Malformed`.
    pub fn decode(bytes: &[u8]) -> (r: Result<Bundle, BundleError>)
        ensures
            r is Err ==> r == Err::<Bundle, BundleError>(BundleError::Malformed),
            r matches Ok(b) ==> b.wf() && enc_bundle(b.spec_manifest().locations@, b.resource_list()) == bytes@,
            forall|locs: Seq<Location>, res: Seq<(Vec<u8>, Vec<u8>)>| #[trigger] enc_bundle(locs, res) == bytes@ && paths_unique(res)
                ==> r is Ok,
    {
        let ghost ok = exists|t: (Seq<Location>, Seq<(Vec<u8>, Vec<u8>)>)| enc_bundle(t.0, t.1) == bytes@ && paths_unique(t.1);
        let ghost t = choose|t: (Seq<Location>, Seq<(Vec<u8>, Vec<u8>)>)| enc_bundle(t.0, t.1) == bytes@ && paths_unique(t.1);
        let ghost tl = t.0;
        let ghost tr = t.1;
        let len = bytes.len();
        proof {
            assert forall|l: Seq<Location>, q: Seq<(Vec<u8>, Vec<u8>)>| #[trigger] enc_bundle(l, q) == bytes@ && paths_unique(q)
                implies ok by {
                let w = (l, q);
                assert(enc_bundle(w.0, w.1) == bytes@ && paths_unique(w.1));
            }
            lemma_pow256_8();
            if ok {
                lemma_locations_len(tl);
                lemma_resources_len(tr);
                lemma_le_bytes_len(tl.len(), 8);
                lemma_le_bytes_len(tr.len(), 8);
                assert(bytes@.subrange(0, 8) =~= le_bytes(tl.len(), 8));
            }
        }
        let n = match read_u64_at(bytes, 0) {
            Some(n) => n,
            None => { return Err(BundleError::Malformed); },
        };
        let mut pos: usize = 8;
        let mut locs: Vec<Location> = Vec::new();
        let mut i: u64 = 0;
        assert(bytes@.subrange(0, 8) =~= le_bytes(n as nat, 8) + enc_locations(locs@));
        while i < n
            invariant
                i <= n,
                len == bytes@.len(),
                8 <= pos <= bytes@.len(),
                locs@.len() == i,
                bytes@.subrange(0, pos as int) == le_bytes(n as nat, 8) + enc_locations(locs@),
                forall|l: Seq<Location>, q: Seq<(Vec<u8>, Vec<u8>)>| #[trigger] enc_bundle(l, q) == bytes@ && paths_unique(q) ==> ok,
                ok ==> enc_bundle(tl, tr) == bytes@ && paths_unique(tr) && n == tl.len(),
                ok ==> forall|j: int| 0 <= j < i ==> same_location(#[trigger] locs@[j], tl[j]),
            decreases n - i,
        {
            let ghost before = locs@;
            let ghost p0 = pos;
            assert(ok ==> location_at(bytes@, pos as int, tl[i as int])) by {
                if ok {
                    lemma_le_bytes_len(n as nat, 8);
                    lemma_locations_same(locs@, tl.take(i as int));
                    lemma_locations_step(tl, i as int);
                    lemma_locations_split(tl, i + 1);
                    let a = le_bytes(n as nat, 8) + enc_locations(tl.take(i as int));
                    let e = enc_location(tl[i as int]);
                    assert(bytes@ =~= a + e + (enc_locations(tl.skip(i + 1)) + le_bytes(tr.len(), 8) + enc_resources(tr)));
                    assert(a.len() == pos);
                    assert(bytes@.subrange(pos as int, pos + e.len()) =~= e);
                    assert(location_at(bytes@, pos as int, tl[i as int]));
                }
            }
            let (l, next) = match read_location(bytes, pos) {
                Some(x) => x,
                None => { return Err(BundleError::Malformed); },
            };
            locs.push(l);
            pos = next;
            i = i + 1;
            proof {
                assert(locs@.drop_last() =~= before);
                assert(bytes@.subrange(0, pos as int) =~= bytes@.subrange(0, p0 as int) + bytes@.subrange(p0 as int, pos as int));
            }
        }
        proof {
            if ok {
                lemma_locations_same(locs@, tl);
                lemma_le_bytes_len(n as nat, 8);
                let a = le_bytes(n as nat, 8) + enc_locations(tl);
                assert(bytes@ =~= a + le_bytes(tr.len(), 8) + enc_resources(tr));
                assert(a.len() == pos);
                assert(bytes@.subrange(pos as int, pos + 8) =~= le_bytes(tr.len(), 8));
            }
        }
        let m = match read_u64_at(bytes, pos) {
            Some(m) => m,
            None => { return Err(BundleError::Malformed); },
        };
        proof {
            assert(bytes@.subrange(0, pos + 8) =~= bytes@.subrange(0, pos as int) + bytes@.subrange(pos as int, pos + 8));
        }
        assert(pos + 8 <= len);
        pos = pos + 8;
        let ghost head = bytes@.subrange(0, pos as int);
        proof {
            if ok {
                assert(head =~= le_bytes(tl.len(), 8) + enc_locations(tl) + le_bytes(tr.len(), 8));
                assert(bytes@ =~= head + enc_resources(tr));
            }
        }
        let mut rs: Vec<(Vec<u8>, Vec<u8>)> = Vec::new();
        let mut k: u64 = 0;
        assert(bytes@.subrange(0, pos as int) =~= head + enc_resources(rs@));
        while k < m
            invariant
                k <= m,
                len == bytes@.len(),
                pos <= bytes@.len(),
                head.len() <= pos,
                rs@.len() == k,
                paths_unique(rs@),
                bytes@.subrange(0, pos as int) == head + enc_resources(rs@),
                forall|l: Seq<Location>, q: Seq<(Vec<u8>, Vec<u8>)>| #[trigger] enc_bundle(l, q) == bytes@ && paths_unique(q) ==> ok,
                ok ==> enc_bundle(tl, tr) == bytes@ && paths_unique(tr) && m == tr.len(),
                ok ==> bytes@ == head + enc_resources(tr),
                ok ==> forall|j: int| 0 <= j < k ==> (#[trigger] rs@[j]).0@ == tr[j].0@ && rs@[j].1@ == tr[j].1@,
            decreases m - k,
        {
            let ghost before = rs@;
            let ghost p0 = pos;
            let ghost x = tr[k as int];
            assert(ok ==> field_at(bytes@, pos as int, x.0@) && field_at(bytes@, pos + 8 + x.0@.len(), x.1@)) by {
                if ok {
                    assert(bytes@.subrange(0, pos as int).len() == pos);
                    assert(pos == head.len() + enc_resources(rs@).len());
                    lemma_next_resource(bytes@, head, tr, rs@);
                }
            }
            let (p, mid) = match read_field(bytes, pos) {
                Some(x) => x,
                None => { return Err(BundleError::Malformed); },
            };
            let (v, next) = match read_field(bytes, mid) {
                Some(x) => x,
                None => { return Err(BundleError::Malformed); },
            };
            match find_path(&rs, &p) {
                Some(j) => {
                    assert(!ok) by {
                        if ok {
                            assert(rs@[j as int].0@ == tr[j as int].0@);
                            assert(tr[j as int].0@ != tr[k as int].0@);
                        }
                    }
                    return Err(BundleError::Malformed);
                },
                None => {},
            }
            rs.push((p, v));
            pos = next;
            k = k + 1;
            proof {
                assert(rs@.drop_last() =~= before);
                assert(bytes@.subrange(0, pos as int) =~= bytes@.subrange(0, p0 as int) + bytes@.subrange(p0 as int, mid as int)
                    + bytes@.subrange(mid as int, pos as int));
            }
        }
        proof {
            if ok {
                lemma_resources_same(rs@, tr);
            }
        }
        if pos != bytes.len() {
            return Err(BundleError::Malformed);
        }
        assert(bytes@.subrange(0, pos as int) =~= bytes@);
        Ok(Bundle { manifest: Manifest { locations: locs }, resources: rs })
    }

    pub fn manifest(&self) -> (r: &Manifest)
        ensures
            *r == self.spec_manifest(),
    {
        &self.manifest
    }

    /// The resources held in this bundle, each path once.
    pub fn bundled_resources(&self) -> (r: &Vec<(Vec<u8>, Vec<u8>)>)
        requires
            self.wf(),
        ensures
            paths_unique(r@),
            resource_map(r@) == self.resources(),
    {
        &self.resources
    }

    /// Looks up the bundled resource at `path`.
    pub fn bundled_resource(&self, path: &Vec<u8>) -> (r: Option<Vec<u8>>)
        requires
            self.wf(),
        ensures
            r is Some <==> self.resources().contains_key(path@),
            r matches Some(v) ==> v@ == self.resources()[path@],
    {
        match find_path(&self.resources, path) {
            Some(i) => {
                proof { lemma_resource_at(self.resources@, i as int); }
                Some(copy_bytes(&self.resources[i].1))
            },
            None => {
                proof { lemma_resource_absent(self.resources@, path@); }
                None
            },
        }
    }

    /// Resolves a location: a bundled one from this bundle's resources,
    /// failing with `BundledResourceMissing` when it holds none; any other
    /// is handed back for the caller to fetch.
    pub fn resolve(&self, location: &Location) -> (r: Result<Resolved, BundleError>)
        requires
            self.wf(),
        ensures
            match location {
                Location::Bundled(p) => if self.resources().contains_key(p@) {
                    r matches Ok(Resolved::Bytes(v)) && v@ == self.resources()[p@]
                } else {
                    r matches Err(BundleError::BundledResourceMissing(q)) && q@ == p@
                },
                Location::Path(p) => r matches Ok(Resolved::LocalPath(q)) && q@ == p@,
                Location::Url(u) => r matches Ok(Resolved::RemoteUrl(q)) && q@ == u@,
            },
    {
        match location {
            Location::Bundled(p) => match self.bundled_resource(p) {
                Some(v) => Ok(Resolved::Bytes(v)),
                None => Err(BundleError::BundledResourceMissing(copy_bytes(p))),
            },
            Location::Path(p) => Ok(Resolved::LocalPath(copy_bytes(p))),
            Location::Url(u) => Ok(Resolved::RemoteUrl(copy_bytes(u))),
        }
    }
}

/// The outcome of resolving a location: the bytes themselves, or where to
/// fetch them from.
#[derive(Clone, Debug, PartialEq, Eq)]
pub enum Resolved {
    Bytes(Vec<u8>),
    LocalPath(Vec<u8>),
    RemoteUrl(Vec<u8>),
}

/// The tag byte that encodes a location's kind.
pub open spec fn loc_tag(l: Location) -> u8 {
    match l {
        Location::Bundled(_) => 0u8,
        Location::Path(_) => 1u8,
        Location::Url(_) => 2u8,
    }
}

/// The bytes a location carries.
pub open spec fn loc_bytes(l: Location) -> Seq<u8> {
    match l {
        Location::Bundled(p) => p@,
        Location::Path(p) => p@,
        Location::Url(u) => u@,
    }
}

/// The two locations are of one kind and carry the same bytes.
pub open spec fn same_location(a: Location, b: Location) -> bool {
    loc_tag(a) == loc_tag(b) && loc_bytes(a) == loc_bytes(b)
}

/// The encoding of one location: a tag byte for its kind, then its bytes as
/// a field.
pub open spec fn enc_location(l: Location) -> Seq<u8> {
    seq![loc_tag(l)] + enc_field(loc_bytes(l))
}

/// The bytes at `pos` begin with the encoding of `l`.
pub open spec fn location_at(bytes: Seq<u8>, pos: int, l: Location) -> bool {
    &&& 0 <= pos
    &&& pos + enc_location(l).len() <= bytes.len()
    &&& bytes.subrange(pos, pos + enc_location(l).len()) == enc_location(l)
}

/// The encodings of the locations, one after another.
pub open spec fn enc_locations(s: Seq<Location>) -> Seq<u8>
    decreases s.len(),
{
    if s.len() == 0 {
        Seq::empty()
    } else {
        enc_locations(s.drop_last()) + enc_location(s.last())
    }
}

/// The encoding of one resource: its path, then its bytes, each as a field.
pub open spec fn enc_resource(r: (Vec<u8>, Vec<u8>)) -> Seq<u8> {
    enc_field(r.0@) + enc_field(r.1@)
}

/// The encodings of the resources, one after another.
pub open spec fn enc_resources(s: Seq<(Vec<u8>, Vec<u8>)>) -> Seq<u8>
    decreases s.len(),
{
    if s.len() == 0 {
        Seq::empty()
    } else {
        enc_resources(s.drop_last()) + enc_resource(s.last())
    }
}

/// The encoding of a bundle: the number of locations and their encodings,
/// then the number of resources and theirs.
pub open spec fn enc_bundle(locs: Seq<Location>, res: Seq<(Vec<u8>, Vec<u8>)>) -> Seq<u8> {
    le_bytes(locs.len(), 8) + enc_locations(locs) + le_bytes(res.len(), 8) + enc_resources(res)
}

/// Reads the location encoded at `pos`, with the position after it.
fn read_location(bytes: &[u8], pos: usize) -> (r: Option<(Location, usize)>)
    ensures
        r matches Some((l, next)) ==> pos <= next <= bytes@.len() && bytes@.subrange(pos as int, next as int) == enc_location(l),
        forall|x: Location| #[trigger] location_at(bytes@, pos as int, x) ==> (r matches Some((l, next)) && same_location(l, x)
            && next == pos + enc_location(x).len()),
{
    proof {
        assert forall|x: Location| #[trigger] location_at(bytes@, pos as int, x) implies pos < bytes@.len() && bytes@[pos as int]
            == loc_tag(x) && field_at(bytes@, pos + 1, loc_bytes(x)) by {
            let e = enc_location(x);
            lemma_le_bytes_len(loc_bytes(x).len(), 8);
            assert(e.len() == 1 + 8 + loc_bytes(x).len());
            assert(e.subrange(1, e.len() as int) =~= enc_field(loc_bytes(x)));
            assert(bytes@[pos as int] == bytes@.subrange(pos as int, pos + e.len())[0]);
            assert(bytes@.subrange(pos + 1, pos + 1 + 8 + loc_bytes(x).len()) =~= e.subrange(1, e.len() as int));
        }
    }
    if pos >= bytes.len() {
        return None;
    }
    let tag = bytes[pos];
    if tag > 2 {
        return None;
    }
    let (v, next) = match read_field(bytes, pos + 1) {
        Some(x) => x,
        None => { return None; },
    };
    let l = if tag == 0 {
        Location::Bundled(v)
    } else if tag == 1 {
        Location::Path(v)
    } else {
        Location::Url(v)
    };
    assert(bytes@.subrange(pos as int, next as int) =~= seq![tag] + bytes@.subrange(pos + 1, next as int));
    Some((l, next))
}

proof fn lemma_locations_step(s: Seq<Location>, i: int)
    requires
        0 <= i < s.len(),
    ensures
        enc_locations(s.take(i + 1)) == enc_locations(s.take(i)) + enc_location(s[i]),
{
    assert(s.take(i + 1).drop_last() =~= s.take(i));
}

proof fn lemma_locations_split(s: Seq<Location>, j: int)
    requires
        0 <= j <= s.len(),
    ensures
        enc_locations(s) == enc_locations(s.take(j)) + enc_locations(s.skip(j)),
    decreases s.len(),
{
    if j == s.len() {
        assert(s.take(j) =~= s);
        assert(s.skip(j) =~= Seq::<Location>::empty());
        assert(enc_locations(s) =~= enc_locations(s) + Seq::<u8>::empty());
    } else {
        let p = s.drop_last();
        lemma_locations_split(p, j);
        assert(p.take(j) =~= s.take(j));
        assert(s.skip(j).drop_last() =~= p.skip(j));
        assert(s.skip(j).last() == s.last());
    }
}

proof fn lemma_locations_same(a: Seq<Location>, b: Seq<Location>)
    requires
        a.len() == b.len(),
        forall|j: int| 0 <= j < a.len() ==> same_location(#[trigger] a[j], b[j]),
    ensures
        enc_locations(a) == enc_locations(b),
    decreases a.len(),
{
    if a.len() > 0 {
        lemma_locations_same(a.drop_last(), b.drop_last());
        assert(same_location(a[a.len() - 1], b[b.len() - 1]));
    }
}

proof fn lemma_locations_len(s: Seq<Location>)
    ensures
        enc_locations(s).len() >= s.len(),
    decreases s.len(),
{
    if s.len() > 0 {
        lemma_locations_len(s.drop_last());
    }
}

proof fn lemma_resources_step(s: Seq<(Vec<u8>, Vec<u8>)>, i: int)
    requires
        0 <= i < s.len(),
    ensures
        enc_resources(s.take(i + 1)) == enc_resources(s.take(i)) + enc_resource(s[i]),
{
    assert(s.take(i + 1).drop_last() =~= s.take(i));
}

proof fn lemma_resources_split(s: Seq<(Vec<u8>, Vec<u8>)>, j: int)
    requires
        0 <= j <= s.len(),
    ensures
        enc_resources(s) == enc_resources(s.take(j)) + enc_resources(s.skip(j)),
    decreases s.len(),
{
    if j == s.len() {
        assert(s.take(j) =~= s);
        assert(s.skip(j) =~= Seq::<(Vec<u8>, Vec<u8>)>::empty());
        assert(enc_resources(s) =~= enc_resources(s) + Seq::<u8>::empty());
    } else {
        let p = s.drop_last();
        lemma_resources_split(p, j);
        assert(p.take(j) =~= s.take(j));
        assert(s.skip(j).drop_last() =~= p.skip(j));
        assert(s.skip(j).last() == s.last());
    }
}

/// Where the resources read so far agree with `tr`, the bytes that follow
/// them hold the next resource of `tr`, path and contents as two fields.
proof fn lemma_next_resource(
    bytes: Seq<u8>,
    head: Seq<u8>,
    tr: Seq<(Vec<u8>, Vec<u8>)>,
    rs: Seq<(Vec<u8>, Vec<u8>)>,
)
    requires
        bytes == head + enc_resources(tr),
        rs.len() < tr.len(),
        forall|j: int| 0 <= j < rs.len() ==> (#[trigger] rs[j]).0@ == tr[j].0@ && rs[j].1@ == tr[j].1@,
    ensures
        field_at(bytes, (head.len() + enc_resources(rs).len()) as int, tr[rs.len() as int].0@),
        field_at(bytes, (head.len() + enc_resources(rs).len() + 8 + tr[rs.len() as int].0@.len()) as int, tr[rs.len() as int].1@),
{
    let k = rs.len() as int;
    lemma_resources_same(rs, tr.take(k));
    lemma_resources_step(tr, k);
    lemma_resources_split(tr, k + 1);
    let x = tr[k];
    lemma_le_bytes_len(x.0@.len(), 8);
    lemma_le_bytes_len(x.1@.len(), 8);
    let a = head + enc_resources(tr.take(k));
    let f0 = enc_field(x.0@);
    let f1 = enc_field(x.1@);
    let pos = a.len() as int;
    assert(bytes =~= a + f0 + f1 + enc_resources(tr.skip(k + 1)));
    assert(bytes.subrange(pos, pos + f0.len() as int) =~= f0);
    assert(bytes.subrange(pos + f0.len() as int, pos + f0.len() + f1.len() as int) =~= f1);
}

proof fn lemma_resources_same(a: Seq<(Vec<u8>, Vec<u8>)>, b: Seq<(Vec<u8>, Vec<u8>)>)
    requires
        a.len() == b.len(),
        forall|j: int| 0 <= j < a.len() ==> (#[trigger] a[j]).0@ == b[j].0@ && a[j].1@ == b[j].1@,
    ensures
        enc_resources(a) == enc_resources(b),
    decreases a.len(),
{
    if a.len() > 0 {
        lemma_resources_same(a.drop_last(), b.drop_last());
        assert(a[a.len() - 1].0@ == b[b.len() - 1].0@);
    }
}

proof fn lemma_resources_len(s: Seq<(Vec<u8>, Vec<u8>)>)
    ensures
        enc_resources(s).len() >= s.len(),
    decreases s.len(),
{
    if s.len() > 0 {
        lemma_resources_len(s.drop_last());
    }
}

proof fn lemma_replace(s0: Seq<(Vec<u8>, Vec<u8>)>, s1: Seq<(Vec<u8>, Vec<u8>)>, j: int)
    requires
        paths_unique(s0),
        0 <= j < s0.len(),
        s1.len() == s0.len(),
        s1[j].0@ == s0[j].0@,
        forall|i: int| 0 <= i < s0.len() && i != j ==> s1[i] == s0[i],
    ensures
        paths_unique(s1),
        resource_map(s1) == resource_map(s0).insert(s1[j].0@, s1[j].1@),
{
    let key = s1[j].0@;
    let v = s1[j].1@;
    assert forall|a: int, b: int| 0 <= a < b < s1.len() implies s1[a].0@ != s1[b].0@ by {
        assert(s0[a].0@ != s0[b].0@);
    }
    assert forall|k: Seq<u8>| #[trigger] resource_map(s1).contains_key(k) == resource_map(s0).insert(key, v).contains_key(k)
        && (resource_map(s1).contains_key(k) ==> resource_map(s1)[k] == resource_map(s0).insert(key, v)[k]) by {
        if k == key {
            lemma_resource_at(s1, j);
        } else if exists|i: int| 0 <= i < s0.len() && s0[i].0@ == k {
            let i = choose|i: int| 0 <= i < s0.len() && s0[i].0@ == k;
            lemma_resource_at(s0, i);
            lemma_resource_at(s1, i);
        } else {
            lemma_resource_absent(s0, k);
            lemma_resource_absent(s1, k);
        }
    }
    assert(resource_map(s1) =~= resource_map(s0).insert(key, v));
}

} // verus!

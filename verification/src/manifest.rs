//! Image manifests: the schema-1 signed manifest, the schema-2 and OCI image
//! manifests with their config blob, and the manifest list, with uniform
//! access to architectures, layers and labels.
//!
//! The types here hold what was read from a registry as plain values. A
//! manifest list names child manifests only; it is never followed here.

use vstd::prelude::*;
use vstd::string::StringExecFns;

verus! {

/// The media type under which the layers of a schema-1 manifest are served.
pub open spec fn schema1_layer_type() -> Seq<char> {
    "application/vnd.docker.image.rootfs.diff.tar.gzip"@
}

/// A blob named by a manifest: a layer, or a config.
#[derive(Debug, Clone)]
pub struct Descriptor {
    pub media_type: String,
    pub size: u64,
    pub digest: String,
}

/// The platform that a child of a manifest list is for.
#[derive(Debug, Clone)]
pub struct Platform {
    pub architecture: String,
    pub os: String,
}

/// One child of a manifest list.
#[derive(Debug, Clone)]
pub struct ManifestEntry {
    pub media_type: String,
    pub size: u64,
    pub digest: String,
    pub platform: Platform,
}

/// A manifest list, or an OCI image index.
#[derive(Debug, Clone)]
pub struct ManifestList {
    pub schema_version: u16,
    pub media_type: String,
    pub manifests: Vec<ManifestEntry>,
}

/// A schema-2 or OCI image manifest as it is served.
#[derive(Debug, Clone)]
pub struct ManifestSchema2Spec {
    pub schema_version: u16,
    pub media_type: String,
    pub config: Descriptor,
    pub layers: Vec<Descriptor>,
}

/// One label of an image.
#[derive(Debug, Clone)]
pub struct Label {
    pub key: String,
    pub value: String,
}

/// What is read of the config blob of an image.
#[derive(Debug, Clone)]
pub struct ConfigBlob {
    pub architecture: String,
    pub labels: Option<Vec<Label>>,
}

/// A schema-2 or OCI image manifest, with its config blob once that has been
/// fetched.
#[derive(Debug, Clone)]
pub struct ManifestSchema2 {
    pub manifest_spec: ManifestSchema2Spec,
    pub config_blob: Option<ConfigBlob>,
}

/// One entry of the history of a schema-1 manifest, with the labels of the
/// config embedded in it, where it holds any.
#[derive(Debug, Clone)]
pub struct History {
    pub v1_compatibility: String,
    pub labels: Option<Vec<Label>>,
}

/// A signed schema-1 manifest. Its layers are listed top layer first.
#[derive(Debug, Clone)]
pub struct ManifestSchema1Signed {
    pub schema_version: u16,
    pub name: String,
    pub tag: String,
    pub architecture: String,
    pub fs_layers: Vec<String>,
    pub history: Vec<History>,
}

/// A manifest of any kind.
#[derive(Debug, Clone)]
pub enum Manifest {
    S1Signed(ManifestSchema1Signed),
    S2(ManifestSchema2),
    OciImage(ManifestSchema2),
    ML(ManifestList),
}

/// One layer of an image: the digest of its blob and the media type of it.
#[derive(Debug, Clone)]
pub struct Layer {
    pub digest: String,
    pub media_type: String,
}

/// Why a manifest cannot answer.
#[derive(Debug, Clone, Copy, PartialEq, Eq, Structural)]
pub enum ManifestError {
    /// The manifest needs its config blob, which has not been fetched.
    ConfigMissing,
    /// No child of the manifest list is for the architecture asked for.
    NoMatchingArchitecture,
}

/// A layer as a pair of texts: its digest, then its media type.
pub open spec fn layer_pairs(layers: Seq<Layer>) -> Seq<(Seq<char>, Seq<char>)> {
    Seq::new(layers.len(), |i: int| (layers[i].digest@, layers[i].media_type@))
}

/// Labels as pairs of texts: key, then value.
pub open spec fn label_pairs(labels: Seq<Label>) -> Seq<(Seq<char>, Seq<char>)> {
    Seq::new(labels.len(), |i: int| (labels[i].key@, labels[i].value@))
}

/// Texts as sequences of characters.
pub open spec fn texts(items: Seq<String>) -> Seq<Seq<char>> {
    Seq::new(items.len(), |i: int| items[i]@)
}

/// The labels that an optional list of labels holds.
pub open spec fn labels_view(labels: Option<Vec<Label>>) -> Option<Seq<(Seq<char>, Seq<char>)>> {
    match labels {
        Some(l) => Some(label_pairs(l@)),
        None => None,
    }
}

impl ManifestList {
    /// The architecture of each child, in the order of the list.
    pub open spec fn declared(&self) -> Seq<Seq<char>> {
        Seq::new(self.manifests@.len(), |i: int| self.manifests@[i].platform.architecture@)
    }

    /// Whether child `i` is the one that a filter selects: the first child
    /// that the filter admits. A filter that names no architecture admits
    /// every child.
    pub open spec fn selects(&self, arch: Option<Seq<char>>, i: int) -> bool {
        &&& 0 <= i < self.manifests@.len()
        &&& admits(arch, self.declared()[i])
        &&& forall|j: int| 0 <= j < i ==> !admits(arch, #[trigger] self.declared()[j])
    }

    /// Whether the filter admits no child.
    pub open spec fn selects_none(&self, arch: Option<Seq<char>>) -> bool {
        forall|j: int| 0 <= j < self.manifests@.len() ==> !admits(arch, #[trigger] self.declared()[j])
    }

    /// The architecture of each child, in the order of the list.
    pub fn architectures(&self) -> (r: Vec<String>)
        ensures
            texts(r@) == self.declared(),
    {
        let mut r: Vec<String> = Vec::new();
        let mut i: usize = 0;
        while i < self.manifests.len()
            invariant
                i <= self.manifests@.len(),
                r@.len() == i,
                forall|j: int| 0 <= j < i ==> (#[trigger] r@[j])@ == self.declared()[j],
            decreases self.manifests@.len() - i,
        {
            r.push(self.manifests[i].platform.architecture.clone());
            i = i + 1;
        }
        assert(texts(r@) =~= self.declared());
        r
    }

    /// The index of the child that the filter selects.
    pub fn select(&self, arch: Option<&str>) -> (r: Option<usize>)
        ensures
            match r {
                Some(i) => self.selects(filter_view(arch), i as int),
                None => self.selects_none(filter_view(arch)),
            },
    {
        let wanted: Option<String> = match arch {
            Some(a) => Some(String::from_str(a)),
            None => None,
        };
        let mut i: usize = 0;
        while i < self.manifests.len()
            invariant
                i <= self.manifests@.len(),
                match wanted {
                    Some(w) => filter_view(arch) == Some(w@),
                    None => filter_view(arch) is None,
                },
                forall|j: int| 0 <= j < i ==> !admits(filter_view(arch), #[trigger] self.declared()[j]),
            decreases self.manifests@.len() - i,
        {
            let hit = match &wanted {
                Some(w) => self.manifests[i].platform.architecture == *w,
                None => true,
            };
            assert(hit == admits(filter_view(arch), self.declared()[i as int]));
            if hit {
                return Some(i);
            }
            i = i + 1;
        }
        None
    }
}

/// Whether a filter admits an architecture: it names none, or it names that
/// one.
pub open spec fn admits(arch: Option<Seq<char>>, declared: Seq<char>) -> bool {
    match arch {
        Some(a) => a == declared,
        None => true,
    }
}

/// A filter as a mathematical value.
pub open spec fn filter_view(arch: Option<&str>) -> Option<Seq<char>> {
    match arch {
        Some(a) => Some(a@),
        None => None,
    }
}

impl ManifestSchema2Spec {
    /// The layers as the manifest lists them: base layer first.
    pub open spec fn listed(&self) -> Seq<(Seq<char>, Seq<char>)> {
        Seq::new(self.layers@.len(), |i: int| (self.layers@[i].digest@, self.layers@[i].media_type@))
    }

    /// The layers of the image, base layer first.
    pub fn get_layers(&self) -> (r: Vec<Layer>)
        ensures
            layer_pairs(r@) == self.listed(),
    {
        let mut r: Vec<Layer> = Vec::new();
        let mut i: usize = 0;
        while i < self.layers.len()
            invariant
                i <= self.layers@.len(),
                r@.len() == i,
                forall|j: int|
                    0 <= j < i ==> (#[trigger] r@[j]).digest@ == self.layers@[j].digest@
                        && r@[j].media_type@ == self.layers@[j].media_type@,
            decreases self.layers@.len() - i,
        {
            r.push(
                Layer {
                    digest: self.layers[i].digest.clone(),
                    media_type: self.layers[i].media_type.clone(),
                },
            );
            i = i + 1;
        }
        assert(layer_pairs(r@) =~= self.listed());
        r
    }
}

impl ManifestSchema1Signed {
    /// The layers, base layer first: the manifest lists them top layer first,
    /// so they come in the reverse of its order.
    pub open spec fn listed(&self) -> Seq<(Seq<char>, Seq<char>)> {
        Seq::new(
            self.fs_layers@.len(),
            |i: int| (self.fs_layers@[self.fs_layers@.len() - 1 - i]@, schema1_layer_type()),
        )
    }

    /// The layers of the image, base layer first.
    pub fn get_layers(&self) -> (r: Vec<Layer>)
        ensures
            layer_pairs(r@) == self.listed(),
    {
        let n: usize = self.fs_layers.len();
        let mut r: Vec<Layer> = Vec::new();
        let mut i: usize = 0;
        while i < n
            invariant
                i <= n,
                n == self.fs_layers@.len(),
                r@.len() == i,
                forall|j: int|
                    0 <= j < i ==> (#[trigger] r@[j]).digest@ == self.fs_layers@[n - 1 - j]@
                        && r@[j].media_type@ == schema1_layer_type(),
            decreases n - i,
        {
            r.push(
                Layer {
                    digest: self.fs_layers[n - 1 - i].clone(),
                    media_type: String::from_str(
                        "application/vnd.docker.image.rootfs.diff.tar.gzip",
                    ),
                },
            );
            i = i + 1;
        }
        assert(layer_pairs(r@) =~= self.listed());
        r
    }

    /// The labels of the config embedded in entry `index` of the history;
    /// `None` where there is no such entry or it holds no labels.
    pub fn get_labels(&self, index: usize) -> (r: Option<Vec<Label>>)
        ensures
            labels_view(r) == (if index < self.history@.len() {
                labels_view(self.history@[index as int].labels)
            } else {
                None
            }),
    {
        if index < self.history.len() {
            clone_labels(&self.history[index].labels)
        } else {
            None
        }
    }
}

/// A copy of optional labels.
pub fn clone_labels(labels: &Option<Vec<Label>>) -> (r: Option<Vec<Label>>)
    ensures
        labels_view(r) == labels_view(*labels),
{
    match labels {
        None => None,
        Some(l) => {
            let mut r: Vec<Label> = Vec::new();
            let mut i: usize = 0;
            while i < l.len()
                invariant
                    i <= l@.len(),
                    r@.len() == i,
                    forall|j: int|
                        0 <= j < i ==> (#[trigger] r@[j]).key@ == l@[j].key@ && r@[j].value@
                            == l@[j].value@,
                decreases l@.len() - i,
            {
                r.push(Label { key: l[i].key.clone(), value: l[i].value.clone() });
                i = i + 1;
            }
            assert(label_pairs(r@) =~= label_pairs(l@));
            Some(r)
        },
    }
}

impl ManifestSchema2 {
    /// The labels of the image, from its config blob. Fails where the config
    /// blob has not been fetched.
    pub fn labels(&self) -> (r: Result<Option<Vec<Label>>, ManifestError>)
        ensures
            match r {
                Ok(l) => self.config_blob matches Some(c) && labels_view(l) == labels_view(
                    c.labels,
                ),
                Err(e) => self.config_blob is None && e == ManifestError::ConfigMissing,
            },
    {
        match &self.config_blob {
            Some(c) => Ok(clone_labels(&c.labels)),
            None => Err(ManifestError::ConfigMissing),
        }
    }

    /// The architecture of the image, from its config blob. Fails where the
    /// config blob has not been fetched.
    pub fn architecture(&self) -> (r: Result<String, ManifestError>)
        ensures
            match r {
                Ok(a) => self.config_blob matches Some(c) && a@ == c.architecture@,
                Err(e) => self.config_blob is None && e == ManifestError::ConfigMissing,
            },
    {
        match &self.config_blob {
            Some(c) => Ok(c.architecture.clone()),
            None => Err(ManifestError::ConfigMissing),
        }
    }
}

impl Manifest {
    /// The architectures that the manifest covers: the one of its config for
    /// a single manifest, and the one of each child, in the order of the
    /// list, for a manifest list. `None` where a schema-2 or OCI manifest has
    /// no config blob.
    pub open spec fn covered(&self) -> Option<Seq<Seq<char>>> {
        match self {
            Manifest::S1Signed(m) => Some(seq![m.architecture@]),
            Manifest::S2(m) | Manifest::OciImage(m) => match m.config_blob {
                Some(c) => Some(seq![c.architecture@]),
                None => None,
            },
            Manifest::ML(m) => Some(m.declared()),
        }
    }

    /// The layers under a filter, each as its digest and its media type, base
    /// layer first. A single manifest gives its layers whatever the filter;
    /// a manifest list gives the one child that the filter selects. `None`
    /// where a manifest list has no child that the filter admits.
    pub open spec fn layered(&self, arch: Option<Seq<char>>) -> Option<Seq<(Seq<char>, Seq<char>)>> {
        match self {
            Manifest::S1Signed(m) => Some(m.listed()),
            Manifest::S2(m) | Manifest::OciImage(m) => Some(m.manifest_spec.listed()),
            Manifest::ML(m) => {
                if m.selects_none(arch) {
                    None
                } else {
                    let i = choose|i: int| m.selects(arch, i);
                    Some(seq![(m.manifests@[i].digest@, m.manifests@[i].media_type@)])
                }
            },
        }
    }

    /// The architectures that the manifest covers.
    pub fn architectures(&self) -> (r: Result<Vec<String>, ManifestError>)
        ensures
            match r {
                Ok(a) => self.covered() == Some(texts(a@)),
                Err(e) => self.covered() is None && e == ManifestError::ConfigMissing,
            },
    {
        match self {
            Manifest::S1Signed(m) => {
                let mut r: Vec<String> = Vec::new();
                r.push(m.architecture.clone());
                assert(texts(r@) =~= seq![m.architecture@]);
                Ok(r)
            },
            Manifest::S2(m) | Manifest::OciImage(m) => match m.architecture() {
                Ok(a) => {
                    let mut r: Vec<String> = Vec::new();
                    r.push(a);
                    assert(texts(r@) =~= seq![m.config_blob.unwrap().architecture@]);
                    Ok(r)
                },
                Err(e) => Err(e),
            },
            Manifest::ML(m) => Ok(m.architectures()),
        }
    }

    /// The layers of the image under a filter, base layer first.
    pub fn layers(&self, architecture: Option<&str>) -> (r: Result<Vec<Layer>, ManifestError>)
        ensures
            match r {
                Ok(l) => self.layered(filter_view(architecture)) == Some(layer_pairs(l@))
                    && self.layered(filter_view(architecture)).unwrap().len() == l@.len(),
                Err(e) => self.layered(filter_view(architecture)) is None && e
                    == ManifestError::NoMatchingArchitecture,
            },
    {
        match self {
            Manifest::S1Signed(m) => Ok(m.get_layers()),
            Manifest::S2(m) | Manifest::OciImage(m) => Ok(m.manifest_spec.get_layers()),
            Manifest::ML(m) => match m.select(architecture) {
                Some(i) => {
                    let mut r: Vec<Layer> = Vec::new();
                    r.push(
                        Layer {
                            digest: m.manifests[i].digest.clone(),
                            media_type: m.manifests[i].media_type.clone(),
                        },
                    );
                    proof {
                        let arch = filter_view(architecture);
                        let chosen = choose|c: int| m.selects(arch, c);
                        lemma_selection_unique(m, arch, i as int, chosen);
                        assert(layer_pairs(r@) =~= seq![
                            (m.manifests@[i as int].digest@, m.manifests@[i as int].media_type@),
                        ]);
                    }
                    Ok(r)
                },
                None => {
                    Err(ManifestError::NoMatchingArchitecture)
                },
            },
        }
    }

    /// The digests of the layers of the image under a filter, base layer
    /// first.
    pub fn layers_digests(&self, architecture: Option<&str>) -> (r: Result<
        Vec<String>,
        ManifestError,
    >)
        ensures
            match r {
                Ok(d) => self.layered(filter_view(architecture)) matches Some(l) && texts(d@)
                    == digests_of(l) && d@.len() == l.len(),
                Err(e) => self.layered(filter_view(architecture)) is None && e
                    == ManifestError::NoMatchingArchitecture,
            },
    {
        match self.layers(architecture) {
            Ok(layers) => {
                let mut r: Vec<String> = Vec::new();
                let mut i: usize = 0;
                while i < layers.len()
                    invariant
                        i <= layers@.len(),
                        r@.len() == i,
                        forall|j: int| 0 <= j < i ==> (#[trigger] r@[j])@ == layers@[j].digest@,
                    decreases layers@.len() - i,
                {
                    r.push(layers[i].digest.clone());
                    i = i + 1;
                }
                assert(texts(r@) =~= digests_of(layer_pairs(layers@)));
                Ok(r)
            },
            Err(e) => Err(e),
        }
    }

    /// The labels of the image: for a schema-1 manifest those of entry
    /// `index` of its history, for a schema-2 or OCI manifest those of its
    /// config blob, and none for a manifest list. Fails where a schema-2 or
    /// OCI manifest has no config blob.
    pub fn labels(&self, index: usize) -> (r: Result<Option<Vec<Label>>, ManifestError>)
        ensures
            match self {
                Manifest::S1Signed(m) => r matches Ok(l) && labels_view(l) == (if index
                    < m.history@.len() {
                    labels_view(m.history@[index as int].labels)
                } else {
                    None
                }),
                Manifest::S2(m) | Manifest::OciImage(m) => match r {
                    Ok(l) => m.config_blob matches Some(c) && labels_view(l) == labels_view(
                        c.labels,
                    ),
                    Err(e) => m.config_blob is None && e == ManifestError::ConfigMissing,
                },
                Manifest::ML(_) => r matches Ok(l) && l is None,
            },
    {
        match self {
            Manifest::S1Signed(m) => Ok(m.get_labels(index)),
            Manifest::S2(m) | Manifest::OciImage(m) => m.labels(),
            Manifest::ML(_) => Ok(None),
        }
    }
}

/// The digests of layers given as pairs.
pub open spec fn digests_of(layers: Seq<(Seq<char>, Seq<char>)>) -> Seq<Seq<char>> {
    Seq::new(layers.len(), |i: int| layers[i].0)
}

/// A filter selects at most one child of a manifest list.
pub proof fn lemma_selection_unique(m: &ManifestList, arch: Option<Seq<char>>, i: int, j: int)
    requires
        m.selects(arch, i),
        m.selects(arch, j),
    ensures
        i == j,
{
    if i < j {
        assert(!admits(arch, m.declared()[i]));
    } else if j < i {
        assert(!admits(arch, m.declared()[j]));
    }
}

/// Layers and their digests go together: whatever the kind of manifest and
/// the filter, there are layers exactly where there are digests, as many of
/// the one as of the other, and each digest is that of the layer at its index.
pub proof fn law_digests_match_layers(m: &Manifest, arch: Option<Seq<char>>, i: int)
    ensures
        m.layered(arch) matches Some(l) ==> digests_of(l).len() == l.len() && (0 <= i < l.len()
            ==> digests_of(l)[i] == l[i].0),
{
}

/// The architectures of a manifest list are those that its children declare,
/// in the order of the list: as many as there are children, each the
/// architecture of the child at its index.
pub proof fn law_list_architectures(m: &ManifestList, i: int)
    ensures
        (Manifest::ML(*m)).covered() matches Some(a) && a.len() == m.manifests@.len() && (0 <= i
            < a.len() ==> a[i] == m.manifests@[i].platform.architecture@),
{
}

/// Every architecture that a manifest list reports is declared by one of its
/// children.
pub proof fn law_list_architectures_declared(m: &ManifestList, a: Seq<char>)
    requires
        m.declared().contains(a),
    ensures
        exists|i: int|
            0 <= i < m.manifests@.len() && (#[trigger] m.manifests@[i]).platform.architecture@ == a,
{
    let i = choose|i: int| 0 <= i < m.declared().len() && m.declared()[i] == a;
    assert(m.manifests@[i].platform.architecture@ == a);
}

} // verus!

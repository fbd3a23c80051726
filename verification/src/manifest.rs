//! The manifest as the engine holds it: an owned list of tensors with the
//! model's dimensions, checked once when the model is loaded.

use vstd::prelude::*;
use crate::io::rom_reader::{still_serves, RomReader};
use crate::model::dims::ModelDims;
use crate::model::meta::{load_dims_from_meta, meta_dims, META_BYTES_V1};
use crate::model::names::L_MODEL_META;
use crate::util::text::str_eq;
use crate::weights_manifest::{parse_header, Entry, ManifestModel, ManifestView};
use crate::weights_manifest_find::find_spec;

verus! {

/// One tensor of the weight blob.
#[derive(Debug, Clone)]
pub struct Layer {
    pub name: String,
    /// Offset from the start of the weight blob.
    pub offset: u32,
    pub size: u32,
}

/// Mathematical content of a [`Layer`].
pub struct LayerModel {
    pub name: Seq<char>,
    pub offset: u32,
    pub size: u32,
}

impl View for Layer {
    type V = LayerModel;

    open spec fn view(&self) -> LayerModel {
        LayerModel { name: self.name@, offset: self.offset, size: self.size }
    }
}

/// The tensors of a model, in the order of the manifest.
#[derive(Debug, Clone)]
pub struct Manifest {
    pub layers: Vec<Layer>,
    pub align: u32,
    pub dims: ModelDims,
}

/// The tensors of `layers`, each by its mathematical content.
pub open spec fn layer_models(layers: Seq<Layer>) -> Seq<LayerModel> {
    Seq::new(layers.len(), |i: int| layers[i]@)
}

/// The records of a manifest as tensors: names, offsets and sizes.
pub open spec fn header_models(header: ManifestModel) -> Seq<LayerModel> {
    Seq::new(
        header.count as nat,
        |k: int|
            LayerModel {
                name: header.entry(k as nat).name,
                offset: header.entry(k as nat).offset,
                size: header.entry(k as nat).size,
            },
    )
}

/// Whether the first `n` tensors are laid out soundly in a blob of
/// `weights_size` bytes: each starts on a multiple of `align`, none starts
/// before the one in front of it ends, and none ends beyond the blob.
pub open spec fn layout_ok(layers: Seq<LayerModel>, align: u32, weights_size: u64, n: int) -> bool {
    forall|i: int|
        0 <= i < n ==> {
            &&& align != 0
            &&& (#[trigger] layers[i]).offset as int % align as int == 0
            &&& i > 0 ==> layers[i - 1].offset + layers[i - 1].size <= layers[i].offset
            &&& layers[i].offset + layers[i].size <= weights_size
        }
}

impl Manifest {
    /// Whether tensor `i` is the first that is named `name`.
    pub open spec fn is_first_named(self, name: Seq<char>, i: int) -> bool {
        &&& 0 <= i < self.layers@.len()
        &&& self.layers@[i].name@ == name
        &&& forall|j: int| 0 <= j < i ==> (#[trigger] self.layers@[j]).name@ != name
    }

    /// First tensor named `name`.
    pub fn find(&self, name: &str) -> (r: Option<&Layer>)
        ensures
            match r {
                Some(layer) => exists|i: int| #[trigger]
                    self.is_first_named(name@, i) && *layer == self.layers@[i],
                None => forall|i: int|
                    0 <= i < self.layers@.len() ==> (#[trigger] self.layers@[i]).name@ != name@,
            },
    {
        let mut i: usize = 0;
        while i < self.layers.len()
            invariant
                i <= self.layers@.len(),
                forall|j: int| 0 <= j < i ==> (#[trigger] self.layers@[j]).name@ != name@,
            decreases self.layers@.len() - i,
        {
            if str_eq(self.layers[i].name.as_str(), name) {
                assert(self.is_first_named(name@, i as int));
                return Some(&self.layers[i]);
            }
            i += 1;
        }
        None
    }

    /// Index of the first tensor named `name`.
    pub fn index_of(&self, name: &str) -> (r: Option<usize>)
        ensures
            match r {
                Some(i) => self.is_first_named(name@, i as int),
                None => forall|i: int|
                    0 <= i < self.layers@.len() ==> (#[trigger] self.layers@[i]).name@ != name@,
            },
    {
        let mut i: usize = 0;
        while i < self.layers.len()
            invariant
                i <= self.layers@.len(),
                forall|j: int| 0 <= j < i ==> (#[trigger] self.layers@[j]).name@ != name@,
            decreases self.layers@.len() - i,
        {
            if str_eq(self.layers[i].name.as_str(), name) {
                return Some(i);
            }
            i += 1;
        }
        None
    }
}

/// Whether the layout of `m` is sound for a weight blob of `weights_size`
/// bytes; see [`layout_ok`].
pub fn validate(m: &Manifest, weights_size: u64) -> (ok: bool)
    ensures
        ok == layout_ok(layer_models(m.layers@), m.align, weights_size, m.layers@.len() as int),
{
    let ghost models = layer_models(m.layers@);
    let mut last_end: u64 = 0;
    let mut i: usize = 0;
    while i < m.layers.len()
        invariant
            i <= m.layers@.len(),
            models == layer_models(m.layers@),
            layout_ok(models, m.align, weights_size, i as int),
            i > 0 ==> last_end == m.layers@[i - 1].offset + m.layers@[i - 1].size,
            i == 0 ==> last_end == 0,
        decreases m.layers@.len() - i,
    {
        let layer = &m.layers[i];
        assert(models[i as int] == layer@);
        if i > 0 {
            assert(models[i - 1] == m.layers@[i - 1]@);
        }
        if m.align == 0 || layer.offset % m.align != 0 {
            return false;
        }
        if (layer.offset as u64) < last_end {
            return false;
        }
        let end: u64 = layer.offset as u64 + layer.size as u64;
        if end > weights_size {
            return false;
        }
        last_end = end;
        i += 1;
    }
    true
}

/// The owned copy of an entry.
fn layer_of(e: &Entry<'_>) -> (layer: Layer)
    ensures
        layer@ == (LayerModel { name: e@.name, offset: e@.offset, size: e@.size }),
{
    Layer { name: e.name.to_owned(), offset: e.offset, size: e.size }
}

/// Loads the model description from the manifest bytes `man_bytes`.
///
/// Every record is copied into an owned tensor list, the dimensions are read
/// from the `model_meta` entry through `rr`, with the compiled-in dimensions
/// standing in where that yields none, and the layout is checked against a
/// weight blob of `weights_size` bytes. Returns `None` where the header is
/// refused, a record does not decode, or the layout is unsound. The
/// dimensions are those of the `model_meta` entry where the entry declares
/// some and the reader serves its record.
pub fn load<R: RomReader>(rr: &mut R, man_bytes: &[u8], weights_size: u64) -> (r: Option<Manifest>)
    ensures
        (*final(rr)).rom() == (*old(rr)).rom(),
        r is Some <==> {
            &&& parse_header(man_bytes@) matches Ok(header)
            &&& header.decodes_up_to(header.count as nat)
            &&& layout_ok(header_models(header), header.align as u32, weights_size, header.count as int)
        },
        r matches Some(m) ==> {
            &&& parse_header(man_bytes@) matches Ok(header)
            &&& layer_models(m.layers@) == header_models(header)
            &&& m.align == header.align
            &&& m.dims == ModelDims::fallback_spec() || Some(m.dims) == meta_dims((*old(rr)).rom(), header)
            &&& meta_dims((*old(rr)).rom(), header) is None ==> m.dims == ModelDims::fallback_spec()
            &&& (find_spec(header, L_MODEL_META@) matches Some(e) && (*old(rr)).serves(
                e.offset as u64,
                META_BYTES_V1 as nat,
            )) ==> (meta_dims((*old(rr)).rom(), header) matches Some(d) ==> m.dims == d)
        },
        still_serves(*old(rr), *final(rr)),
{
    let view = match ManifestView::new(man_bytes) {
        Ok(v) => v,
        Err(_) => {
            return None;
        },
    };
    let entries = match view.entries() {
        Ok(v) => v,
        Err(_) => {
            assert(!view@.decodes_up_to(view@.count as nat));
            return None;
        },
    };
    let mut layers: Vec<Layer> = Vec::new();
    let mut i: usize = 0;
    while i < entries.len()
        invariant
            i <= entries@.len(),
            layers@.len() == i,
            entries@.len() == view@.count,
            forall|k: int| 0 <= k < entries@.len() ==> (#[trigger] entries@[k])@ == view@.entry(k as nat),
            forall|k: int| 0 <= k < i ==> (#[trigger] layers@[k])@ == header_models(view@)[k],
        decreases entries@.len() - i,
    {
        let layer = layer_of(&entries[i]);
        layers.push(layer);
        i += 1;
    }
    let dims = match load_dims_from_meta(rr, &view) {
        Some(d) => d,
        None => ModelDims::fallback(),
    };
    let manifest = Manifest { layers, align: view.align() as u32, dims };
    assert(layer_models(manifest.layers@) =~= header_models(view@));
    if !validate(&manifest, weights_size) {
        return None;
    }
    Some(manifest)
}

} // verus!

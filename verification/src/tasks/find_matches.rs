//! What finding matches needs: the chosen image, its chosen tile layouts with their colours,
//! and the chosen videos with their databases.

use vstd::prelude::*;
use crate::app::App;
use crate::app::tile_shape::TileShape;
use crate::app::mosaic_tiling_option::MosaicTilingOption;

verus! {

/// Why matches cannot be looked for.
#[derive(Clone, Copy, Debug, PartialEq, Eq, Structural)]
pub enum FindMatchesError {
    NoImageSelected,
    NoLayoutsForShape,
    NoLayoutsChosen,
    NoVideosSelected,
}

/// Where the inputs of finding matches are in the application's lists.
pub struct MatchInputs {
    /// The chosen image.
    pub image: usize,
    /// The entry of its tiling options for the selected tile shape.
    pub shape: usize,
    /// The chosen layouts of that entry that have their tile colours, in order.
    pub layouts: Vec<usize>,
    /// The chosen videos that have their databases, in order.
    pub videos: Vec<usize>,
}

/// The indices `i < n` where `p` holds, in increasing order.
pub open spec fn indices_where(n: nat, p: spec_fn(int) -> bool) -> Seq<usize>
    decreases n,
{
    if n == 0 {
        Seq::empty()
    } else {
        let prev = indices_where((n - 1) as nat, p);
        if p(n - 1) { prev.push((n - 1) as usize) } else { prev }
    }
}

/// The first entry of `options` for `shape`, if any.
fn shape_entry(options: &Vec<(TileShape, Vec<MosaicTilingOption>)>, shape: TileShape) -> (r: Option<usize>)
    ensures
        match r {
            Some(s) => s < options@.len() && options@[s as int].0 == shape && forall|t: int| 0 <= t < s ==> (#[trigger] options@[t]).0 != shape,
            None => forall|t: int| 0 <= t < options@.len() ==> (#[trigger] options@[t]).0 != shape,
        },
{
    let mut s: usize = 0;
    while s < options.len()
        invariant
            s <= options@.len(),
            forall|t: int| 0 <= t < s ==> (#[trigger] options@[t]).0 != shape,
        decreases options@.len() - s,
    {
        if options[s].0 == shape {
            return Some(s);
        }
        s += 1;
    }
    None
}

/// The inputs of finding matches, or why there are none, in the order the checks are made.
pub fn match_inputs(app: &App) -> (r: Result<MatchInputs, FindMatchesError>)
    ensures
        ({
            let images = app.images@;
            match r {
                Err(FindMatchesError::NoImageSelected) => forall|i: int| 0 <= i < images.len() ==> !(#[trigger] images[i]).is_chosen,
                Err(FindMatchesError::NoLayoutsForShape) => exists|i: int| 0 <= i < images.len() && (#[trigger] images[i]).is_chosen
                    && (forall|j: int| 0 <= j < i ==> !(#[trigger] images[j]).is_chosen)
                    && forall|s: int| 0 <= s < images[i].tiling_options@.len() ==> (#[trigger] images[i].tiling_options@[s]).0
                        != app.selected_tile_shape,
                Err(FindMatchesError::NoLayoutsChosen) => true,
                Err(FindMatchesError::NoVideosSelected) => forall|v: int| 0 <= v < app.videos@.len() ==> !((#[trigger] app.videos@[v]).is_chosen
                    && app.videos@[v].database is Some),
                Ok(m) => {
                    let im = images[m.image as int];
                    let options = im.tiling_options@[m.shape as int].1@;
                    &&& m.image < images.len()
                    &&& im.is_chosen
                    &&& forall|j: int| 0 <= j < m.image ==> !(#[trigger] images[j]).is_chosen
                    &&& m.shape < im.tiling_options@.len()
                    &&& im.tiling_options@[m.shape as int].0 == app.selected_tile_shape
                    &&& forall|s: int| 0 <= s < m.shape ==> (#[trigger] im.tiling_options@[s]).0 != app.selected_tile_shape
                    &&& m.layouts@ == indices_where(options.len(), |k: int| options[k].is_chosen && options[k].image_tiles is Some)
                    &&& m.layouts@.len() > 0
                    &&& m.videos@ == indices_where(app.videos@.len(), |v: int| app.videos@[v].is_chosen && app.videos@[v].database is Some)
                    &&& m.videos@.len() > 0
                },
            }
        }),
{
    let image = match app.chosen_image() {
        Some(i) => i,
        None => return Err(FindMatchesError::NoImageSelected),
    };
    let im = &app.images[image];
    let shape = match shape_entry(&im.tiling_options, app.selected_tile_shape) {
        Some(s) => s,
        None => return Err(FindMatchesError::NoLayoutsForShape),
    };
    let options = &im.tiling_options[shape].1;
    let mut layouts: Vec<usize> = Vec::new();
    let mut k: usize = 0;
    while k < options.len()
        invariant
            k <= options@.len(),
            layouts@ == indices_where(k as nat, |j: int| options@[j].is_chosen && options@[j].image_tiles is Some),
        decreases options@.len() - k,
    {
        if options[k].is_chosen && options[k].image_tiles.is_some() {
            layouts.push(k);
        }
        k += 1;
    }
    if layouts.len() == 0 {
        return Err(FindMatchesError::NoLayoutsChosen);
    }
    let mut videos: Vec<usize> = Vec::new();
    let mut v: usize = 0;
    while v < app.videos.len()
        invariant
            v <= app.videos@.len(),
            videos@ == indices_where(v as nat, |j: int| app.videos@[j].is_chosen && app.videos@[j].database is Some),
            videos@.len() == 0 ==> forall|j: int| 0 <= j < v ==> !((#[trigger] app.videos@[j]).is_chosen && app.videos@[j].database is Some),
        decreases app.videos@.len() - v,
    {
        if app.videos[v].is_chosen && app.videos[v].database.is_some() {
            videos.push(v);
        }
        v += 1;
    }
    if videos.len() == 0 {
        return Err(FindMatchesError::NoVideosSelected);
    }
    Ok(MatchInputs { image, shape, layouts, videos })
}

} // verus!

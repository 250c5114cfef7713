//! The choice of streams in a master playlist.

use crate::hls::playlist::{AlternativeMedia, MasterPlaylist, MasterPlaylistView, VariantStream};
use crate::text;
use vstd::prelude::*;

verus! {

/// The first item that satisfies `wanted`.
pub open spec fn first_where<A>(items: Seq<A>, wanted: spec_fn(A) -> bool) -> Option<A>
    decreases items.len(),
{
    if items.len() == 0 {
        None
    } else if wanted(items[0]) {
        Some(items[0])
    } else {
        first_where(items.skip(1), wanted)
    }
}

/// An alternative of the group `name`, with the marks that are asked for.
pub open spec fn in_group(name: Seq<char>, default: bool, autoselect: bool) -> spec_fn(
    AlternativeMedia<Seq<char>>,
) -> bool {
    |alt: AlternativeMedia<Seq<char>>|
        alt.group_id == name && (default ==> alt.default) && (autoselect ==> alt.autoselect)
}

/// The alternative that stands for the group `name`: the first that is the default, else
/// the first that may be selected automatically, else the first.
pub open spec fn alternative_of(
    alternatives: Seq<AlternativeMedia<Seq<char>>>,
    name: Seq<char>,
) -> Option<AlternativeMedia<Seq<char>>> {
    match first_where(alternatives, in_group(name, true, false)) {
        Some(alt) => Some(alt),
        None => match first_where(alternatives, in_group(name, false, true)) {
            Some(alt) => Some(alt),
            None => first_where(alternatives, in_group(name, false, false)),
        },
    }
}

/// The variant at `i` shows moving pictures, no other such variant has more bandwidth, and
/// none after it has as much.
pub open spec fn is_best_variant(variants: Seq<VariantStream<Seq<char>>>, i: int) -> bool {
    &&& 0 <= i < variants.len()
    &&& !variants[i].is_i_frame
    &&& forall|j: int|
        0 <= j < variants.len() && !(#[trigger] variants[j]).is_i_frame
            ==> variants[j].bandwidth <= variants[i].bandwidth && (j > i ==> variants[j].bandwidth
            < variants[i].bandwidth)
}

/// The variant at `i` shows moving pictures, no other such variant has less bandwidth, and
/// none before it has as little.
pub open spec fn is_worst_variant(variants: Seq<VariantStream<Seq<char>>>, i: int) -> bool {
    &&& 0 <= i < variants.len()
    &&& !variants[i].is_i_frame
    &&& forall|j: int|
        0 <= j < variants.len() && !(#[trigger] variants[j]).is_i_frame
            ==> variants[i].bandwidth <= variants[j].bandwidth && (j < i ==> variants[i].bandwidth
            < variants[j].bandwidth)
}

/// The variant at `i` is the one to take: the worst or the best.
pub open spec fn is_chosen_variant(
    variants: Seq<VariantStream<Seq<char>>>,
    worst: bool,
    i: int,
) -> bool {
    if worst {
        is_worst_variant(variants, i)
    } else {
        is_best_variant(variants, i)
    }
}

/// Where the variant to take stands.
pub open spec fn chosen_variant_at(
    variants: Seq<VariantStream<Seq<char>>>,
    worst: bool,
) -> Option<int> {
    if exists|i: int| is_chosen_variant(variants, worst, i) {
        Some(choose|i: int| is_chosen_variant(variants, worst, i))
    } else {
        None
    }
}

/// The URI of the alternative that stands for a group, if there is a group and it has one.
pub open spec fn alternative_uri(
    alternatives: Seq<AlternativeMedia<Seq<char>>>,
    group: Option<Seq<char>>,
) -> Option<Seq<char>> {
    match group {
        Some(name) => match alternative_of(alternatives, name) {
            Some(alt) => alt.uri,
            None => None,
        },
        None => None,
    }
}

/// No item or one.
pub open spec fn as_list(item: Option<Seq<char>>) -> Seq<Seq<char>> {
    match item {
        Some(item) => seq![item],
        None => seq![],
    }
}

/// The URIs of the streams to download: the alternatives for picture and sound of the
/// variant to take, and the variant itself unless both are there.
pub open spec fn selected_uris(playlist: MasterPlaylistView, worst: bool) -> Option<
    Seq<Seq<char>>,
> {
    match chosen_variant_at(playlist.variants, worst) {
        Some(i) => {
            let chosen = playlist.variants[i];
            let video = alternative_uri(playlist.alternatives, chosen.video);
            let audio = alternative_uri(playlist.alternatives, chosen.audio);
            let alternatives = as_list(video) + as_list(audio);
            if video is Some && audio is Some {
                Some(alternatives)
            } else {
                Some(alternatives.push(chosen.uri))
            }
        },
        None => None,
    }
}

/// No more than one variant is the one to take.
proof fn lemma_choice_is_unique(
    variants: Seq<VariantStream<Seq<char>>>,
    worst: bool,
    i: int,
    j: int,
)
    requires
        is_chosen_variant(variants, worst, i),
        is_chosen_variant(variants, worst, j),
    ensures
        i == j,
{
    assert(!variants[i].is_i_frame && !variants[j].is_i_frame);
}

fn first_in_group<'a>(
    alternatives: &'a Vec<AlternativeMedia<String>>,
    name: &str,
    default: bool,
    autoselect: bool,
) -> (found: Option<&'a AlternativeMedia<String>>)
    ensures
        match found {
            Some(alt) => first_where(
                alternatives@.map_values(|alt: AlternativeMedia<String>| alt@),
                in_group(name@, default, autoselect),
            ) == Some(alt@),
            None => first_where(
                alternatives@.map_values(|alt: AlternativeMedia<String>| alt@),
                in_group(name@, default, autoselect),
            ) is None,
        },
{
    let ghost all = alternatives@.map_values(|alt: AlternativeMedia<String>| alt@);
    let ghost wanted = in_group(name@, default, autoselect);
    let mut i: usize = 0;
    assert(all.skip(0) == all);
    while i < alternatives.len()
        invariant
            i <= alternatives.len(),
            all == alternatives@.map_values(|alt: AlternativeMedia<String>| alt@),
            wanted == in_group(name@, default, autoselect),
            first_where(all, wanted) == first_where(all.skip(i as int), wanted),
        decreases alternatives.len() - i,
    {
        let alt = &alternatives[i];
        assert(all.skip(i as int)[0] == alt@);
        assert(all.skip(i as int).skip(1) == all.skip(i + 1));
        if text::same(alt.group_id.as_str(), name) && (!default || alt.default) && (!autoselect
            || alt.autoselect) {
            return Some(alt);
        }
        i = i + 1;
    }
    None
}

/// The alternative that stands for the group `name`.
pub fn find_alternative<'a>(playlist: &'a MasterPlaylist, name: &str) -> (found: Option<
    &'a AlternativeMedia<String>,
>)
    ensures
        match found {
            Some(alt) => alternative_of(playlist@.alternatives, name@) == Some(alt@),
            None => alternative_of(playlist@.alternatives, name@) is None,
        },
{
    match first_in_group(&playlist.alternatives, name, true, false) {
        Some(alt) => Some(alt),
        None => match first_in_group(&playlist.alternatives, name, false, true) {
            Some(alt) => Some(alt),
            None => first_in_group(&playlist.alternatives, name, false, false),
        },
    }
}

/// Where the variant to take stands: the best, the last among variants of the same
/// bandwidth, or the worst, the first among them.
pub fn best_variant(playlist: &MasterPlaylist, worst: bool) -> (at: Option<usize>)
    ensures
        match at {
            Some(at) => {
                &&& is_chosen_variant(playlist@.variants, worst, at as int)
                &&& chosen_variant_at(playlist@.variants, worst) == Some(at as int)
            },
            None => {
                &&& forall|i: int| !is_chosen_variant(playlist@.variants, worst, i)
                &&& chosen_variant_at(playlist@.variants, worst) is None
            },
        },
{
    let ghost all = playlist@.variants;
    let mut chosen: Option<usize> = None;
    let mut i: usize = 0;
    while i < playlist.variants.len()
        invariant
            i <= playlist.variants.len(),
            all == playlist@.variants,
            match chosen {
                Some(c) => c < i && is_chosen_variant(all.take(i as int), worst, c as int),
                None => forall|j: int| 0 <= j < i ==> (#[trigger] all[j]).is_i_frame,
            },
        decreases playlist.variants.len() - i,
    {
        let variant = &playlist.variants[i];
        let ghost before = all.take(i as int);
        let ghost now = all.take(i + 1);
        assert(all[i as int] == variant@);
        assert(forall|j: int| 0 <= j < i ==> now[j] == before[j]);
        assert(now[i as int] == variant@);
        if !variant.is_i_frame {
            match chosen {
                None => {
                    chosen = Some(i);
                },
                Some(c) => {
                    assert(all[c as int] == playlist.variants@[c as int]@);
                    assert(now[c as int] == before[c as int]);
                    let bandwidth = playlist.variants[c].bandwidth;
                    let better = if worst {
                        variant.bandwidth < bandwidth
                    } else {
                        bandwidth <= variant.bandwidth
                    };
                    if better {
                        chosen = Some(i);
                    }
                },
            }
        }
        i = i + 1;
    }
    assert(all.take(all.len() as int) == all);
    proof {
        if let Some(c) = chosen {
            lemma_choice_is_unique(
                all,
                worst,
                c as int,
                choose|k: int| is_chosen_variant(all, worst, k),
            );
        }
    }
    chosen
}

fn group_uri(playlist: &MasterPlaylist, group: &Option<String>) -> (uri: Option<String>)
    ensures
        text::opt_text(uri) == alternative_uri(
            playlist@.alternatives,
            text::opt_text(*group),
        ),
{
    match group {
        Some(name) => match find_alternative(playlist, name.as_str()) {
            Some(alt) => text::copy_opt(&alt.uri),
            None => None,
        },
        None => None,
    }
}

/// The characters of each text.
pub open spec fn texts(list: Seq<String>) -> Seq<Seq<char>> {
    list.map_values(|text: String| text@)
}

/// The URIs of the streams to download, the picture first, or nothing where no variant
/// shows moving pictures.
pub fn select_uris(playlist: &MasterPlaylist, worst: bool) -> (uris: Option<Vec<String>>)
    ensures
        match uris {
            Some(uris) => selected_uris(playlist@, worst) == Some(texts(uris@)),
            None => selected_uris(playlist@, worst) is None,
        },
{
    match best_variant(playlist, worst) {
        Some(at) => {
            let chosen = &playlist.variants[at];
            assert(playlist@.variants[at as int] == chosen@);
            let video = group_uri(playlist, &chosen.video);
            let audio = group_uri(playlist, &chosen.audio);
            let both = video.is_some() && audio.is_some();
            let mut uris: Vec<String> = Vec::new();
            let ghost expected = as_list(text::opt_text(video)) + as_list(text::opt_text(audio));
            if let Some(uri) = video {
                uris.push(uri);
            }
            if let Some(uri) = audio {
                uris.push(uri);
            }
            assert(texts(uris@) == expected);
            if !both {
                let ghost before = uris@;
                uris.push(chosen.uri.clone());
                assert(texts(uris@) == texts(before).push(chosen@.uri));
            }
            Some(uris)
        },
        None => None,
    }
}

/// There is something to download exactly where a variant shows moving pictures, and it is
/// one stream or two.
pub proof fn law_one_or_two_streams(playlist: MasterPlaylistView, worst: bool)
    ensures
        selected_uris(playlist, worst) is Some <==> exists|i: int|
            0 <= i < playlist.variants.len() && !(#[trigger] playlist.variants[i]).is_i_frame,
        selected_uris(playlist, worst) matches Some(uris) ==> 1 <= uris.len() <= 2,
{
    let variants = playlist.variants;
    if exists|i: int| 0 <= i < variants.len() && !(#[trigger] variants[i]).is_i_frame {
        let i = choose|i: int| 0 <= i < variants.len() && !(#[trigger] variants[i]).is_i_frame;
        lemma_some_variant_is_chosen(variants, worst, i);
    }
}

/// Where a variant has no alternatives and is the one to take, it alone is downloaded: the
/// one of lowest bandwidth where the worst is asked for, and of highest where not.
pub proof fn law_variant_without_alternatives(playlist: MasterPlaylistView, worst: bool, i: int)
    requires
        is_chosen_variant(playlist.variants, worst, i),
        alternative_uri(playlist.alternatives, playlist.variants[i].video) is None,
        alternative_uri(playlist.alternatives, playlist.variants[i].audio) is None,
    ensures
        selected_uris(playlist, worst) == Some(seq![playlist.variants[i].uri]),
        forall|j: int|
            0 <= j < playlist.variants.len() && !(#[trigger] playlist.variants[j]).is_i_frame ==> if worst {
                playlist.variants[i].bandwidth <= playlist.variants[j].bandwidth
            } else {
                playlist.variants[j].bandwidth <= playlist.variants[i].bandwidth
            },
{
    let variants = playlist.variants;
    lemma_choice_is_unique(
        variants,
        worst,
        i,
        choose|k: int| is_chosen_variant(variants, worst, k),
    );
    assert(selected_uris(playlist, worst)->0 =~= seq![variants[i].uri]);
}

/// Where a variant shows moving pictures, one of them is the one to take.
proof fn lemma_some_variant_is_chosen(
    variants: Seq<VariantStream<Seq<char>>>,
    worst: bool,
    i: int,
)
    requires
        0 <= i < variants.len(),
        !variants[i].is_i_frame,
    ensures
        exists|k: int| is_chosen_variant(variants, worst, k),
    decreases variants.len(),
{
    let last = variants.len() - 1;
    let rest = variants.take(last);
    if forall|j: int| 0 <= j < last ==> (#[trigger] variants[j]).is_i_frame {
        assert(i == last);
        assert(is_chosen_variant(variants, worst, last));
    } else {
        let j = choose|j: int| 0 <= j < last && !(#[trigger] variants[j]).is_i_frame;
        assert(rest[j] == variants[j]);
        lemma_some_variant_is_chosen(rest, worst, j);
        let k = choose|k: int| is_chosen_variant(rest, worst, k);
        assert(rest[k] == variants[k]);
        assert(forall|m: int| 0 <= m < last ==> rest[m] == #[trigger] variants[m]);
        let takes_last = !variants[last].is_i_frame && if worst {
            variants[last].bandwidth < variants[k].bandwidth
        } else {
            variants[last].bandwidth >= variants[k].bandwidth
        };
        if takes_last {
            assert(is_chosen_variant(variants, worst, last));
        } else {
            assert(is_chosen_variant(variants, worst, k));
        }
    }
}

/// The alternative that stands for a group belongs to it. A group that has a default is
/// represented by a default; one that has none but has an alternative for automatic
/// selection, by such a one; and every group with an alternative is represented.
pub proof fn law_alternative_of_group(
    alternatives: Seq<AlternativeMedia<Seq<char>>>,
    name: Seq<char>,
    i: int,
)
    requires
        0 <= i < alternatives.len(),
        alternatives[i].group_id == name,
    ensures
        alternative_of(alternatives, name) matches Some(alt) && {
            &&& alternatives.contains(alt)
            &&& alt.group_id == name
            &&& alternatives[i].default ==> alt.default
            &&& alternatives[i].autoselect ==> alt.default || alt.autoselect
        },
{
    lemma_first_where(alternatives, in_group(name, true, false), i);
    lemma_first_where(alternatives, in_group(name, false, true), i);
    lemma_first_where(alternatives, in_group(name, false, false), i);
}

proof fn lemma_first_where<A>(items: Seq<A>, wanted: spec_fn(A) -> bool, i: int)
    requires
        0 <= i < items.len(),
    ensures
        first_where(items, wanted) matches Some(found) ==> items.contains(found) && wanted(found),
        wanted(items[i]) ==> first_where(items, wanted) is Some,
    decreases items.len(),
{
    assert(items.contains(items[0]));
    if !wanted(items[0]) {
        let rest = items.skip(1);
        if rest.len() > 0 {
            let j = if i == 0 {
                0
            } else {
                i - 1
            };
            lemma_first_where(rest, wanted, j);
            if let Some(found) = first_where(rest, wanted) {
                let k = choose|k: int| 0 <= k < rest.len() && rest[k] == found;
                assert(items[k + 1] == found);
            }
            if i > 0 {
                assert(rest[i - 1] == items[i]);
            }
        }
    }
}

/// Which alternative stands for a group: the first default; where there is none, the first
/// for automatic selection; and where there is neither, the first at all.
pub proof fn law_first_of_the_best_marked(
    alternatives: Seq<AlternativeMedia<Seq<char>>>,
    name: Seq<char>,
    k: int,
)
    requires
        0 <= k < alternatives.len(),
        alternatives[k].group_id == name,
        forall|j: int|
            #![trigger alternatives[j]]
            0 <= j < alternatives.len() && alternatives[j].group_id == name ==> {
                let this = alternatives[k];
                let other = alternatives[j];
                &&& this.default && j < k ==> !other.default
                &&& !this.default ==> !other.default
                &&& !this.default && this.autoselect && j < k ==> !other.autoselect
                &&& !this.default && !this.autoselect ==> !other.autoselect && j >= k
            },
    ensures
        alternative_of(alternatives, name) == Some(alternatives[k]),
{
    let this = alternatives[k];
    if this.default {
        lemma_first_at(alternatives, in_group(name, true, false), k);
    } else {
        lemma_none(alternatives, in_group(name, true, false));
        if this.autoselect {
            lemma_first_at(alternatives, in_group(name, false, true), k);
        } else {
            lemma_none(alternatives, in_group(name, false, true));
            lemma_first_at(alternatives, in_group(name, false, false), k);
        }
    }
}

/// A group without alternatives is represented by none.
pub proof fn law_no_alternative_for_an_empty_group(
    alternatives: Seq<AlternativeMedia<Seq<char>>>,
    name: Seq<char>,
)
    requires
        forall|j: int|
            0 <= j < alternatives.len() ==> (#[trigger] alternatives[j]).group_id != name,
    ensures
        alternative_of(alternatives, name) is None,
{
    lemma_none(alternatives, in_group(name, true, false));
    lemma_none(alternatives, in_group(name, false, true));
    lemma_none(alternatives, in_group(name, false, false));
}

proof fn lemma_first_at<A>(items: Seq<A>, wanted: spec_fn(A) -> bool, k: int)
    requires
        0 <= k < items.len(),
        wanted(items[k]),
        forall|j: int| 0 <= j < k ==> !wanted(#[trigger] items[j]),
    ensures
        first_where(items, wanted) == Some(items[k]),
    decreases items.len(),
{
    if k > 0 {
        let rest = items.skip(1);
        assert(!wanted(items[0]));
        assert(rest[k - 1] == items[k]);
        assert forall|j: int| 0 <= j < k - 1 implies !wanted(#[trigger] rest[j]) by {
            assert(rest[j] == items[j + 1]);
        }
        lemma_first_at(rest, wanted, k - 1);
    }
}

proof fn lemma_none<A>(items: Seq<A>, wanted: spec_fn(A) -> bool)
    requires
        forall|j: int| 0 <= j < items.len() ==> !wanted(#[trigger] items[j]),
    ensures
        first_where(items, wanted) is None,
    decreases items.len(),
{
    if items.len() > 0 {
        let rest = items.skip(1);
        assert(!wanted(items[0]));
        assert forall|j: int| 0 <= j < rest.len() implies !wanted(#[trigger] rest[j]) by {
            assert(rest[j] == items[j + 1]);
        }
        lemma_none(rest, wanted);
    }
}

/// The URIs to download come from one variant with moving pictures: of the highest
/// bandwidth and the last of several, or, where the worst is asked for, of the lowest and
/// the first. They are the URIs of the alternatives for its picture and its sound, in this
/// order and as far as there are any, and its own behind them unless both are there.
pub proof fn law_streams_of_the_chosen_variant(playlist: MasterPlaylistView, worst: bool, i: int)
    requires
        0 <= i < playlist.variants.len(),
        !playlist.variants[i].is_i_frame,
        forall|j: int|
            #![trigger playlist.variants[j]]
            0 <= j < playlist.variants.len() && !playlist.variants[j].is_i_frame ==> {
                let this = playlist.variants[i].bandwidth;
                let other = playlist.variants[j].bandwidth;
                &&& worst ==> this <= other && (j < i ==> this < other)
                &&& !worst ==> other <= this && (j > i ==> other < this)
            },
    ensures
        ({
            let variant = playlist.variants[i];
            let picture = match variant.video {
                Some(name) => match alternative_of(playlist.alternatives, name) {
                    Some(alt) => alt.uri,
                    None => None,
                },
                None => None,
            };
            let sound = match variant.audio {
                Some(name) => match alternative_of(playlist.alternatives, name) {
                    Some(alt) => alt.uri,
                    None => None,
                },
                None => None,
            };
            selected_uris(playlist, worst) == Some(
                match (picture, sound) {
                    (Some(picture), Some(sound)) => seq![picture, sound],
                    (Some(picture), None) => seq![picture, variant.uri],
                    (None, Some(sound)) => seq![sound, variant.uri],
                    (None, None) => seq![variant.uri],
                },
            )
        }),
{
    let variants = playlist.variants;
    assert(is_chosen_variant(variants, worst, i));
    lemma_choice_is_unique(
        variants,
        worst,
        i,
        choose|k: int| is_chosen_variant(variants, worst, k),
    );
    let picture = alternative_uri(playlist.alternatives, variants[i].video);
    let sound = alternative_uri(playlist.alternatives, variants[i].audio);
    let uris = selected_uris(playlist, worst)->0;
    match (picture, sound) {
        (Some(picture), Some(sound)) => assert(uris =~= seq![picture, sound]),
        (Some(picture), None) => assert(uris =~= seq![picture, variants[i].uri]),
        (None, Some(sound)) => assert(uris =~= seq![sound, variants[i].uri]),
        (None, None) => assert(uris =~= seq![variants[i].uri]),
    }
}

/// In specifications no text is left out or added.
pub proof fn law_uris_are_seen_whole(list: Seq<String>)
    ensures
        texts(list).len() == list.len(),
        forall|i: int| 0 <= i < list.len() ==> #[trigger] texts(list)[i] == list[i]@,
{
}

} // verus!

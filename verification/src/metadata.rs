//! Tags, codec information and pictures of a media file.

use crate::math::AudioMath;
use crate::text::{begins_with, decimal_text, same_text};
use std::collections::HashMap;
use vstd::prelude::*;

verus! {

// ── JSON ──────────────────────────────────────────────────────────────────────

/// A lower-case hexadecimal digit.
pub open spec fn hex_digit(d: int) -> char {
    if d < 10 {
        crate::text::digit(d as nat)
    } else if d == 10 {
        'a'
    } else if d == 11 {
        'b'
    } else if d == 12 {
        'c'
    } else if d == 13 {
        'd'
    } else if d == 14 {
        'e'
    } else {
        'f'
    }
}

/// A character inside a JSON string.
pub open spec fn json_char(c: char) -> Seq<char> {
    let n = c as int;
    if n == 0x22 {
        seq!['\\', '"']
    } else if n == 0x5c {
        seq!['\\', '\\']
    } else if n == 8 {
        seq!['\\', 'b']
    } else if n == 9 {
        seq!['\\', 't']
    } else if n == 10 {
        seq!['\\', 'n']
    } else if n == 12 {
        seq!['\\', 'f']
    } else if n == 13 {
        seq!['\\', 'r']
    } else if n < 0x20 {
        seq!['\\', 'u', '0', '0', hex_digit(n / 16), hex_digit(n % 16)]
    } else {
        seq![c]
    }
}

/// The characters of `s` inside a JSON string.
pub open spec fn json_chars(s: Seq<char>) -> Seq<char>
    decreases s.len(),
{
    if s.len() == 0 {
        Seq::empty()
    } else {
        json_chars(s.drop_last()) + json_char(s.last())
    }
}

/// `s` as a JSON string.
pub open spec fn json_string(s: Seq<char>) -> Seq<char> {
    seq!['"'] + json_chars(s) + seq!['"']
}

/// The members of a JSON object, in order and separated by commas.
pub open spec fn json_members(members: Seq<(Seq<char>, Seq<char>)>) -> Seq<char>
    decreases members.len(),
{
    if members.len() == 0 {
        Seq::empty()
    } else {
        let last = json_string(members.last().0) + seq![':'] + json_string(members.last().1);
        if members.len() == 1 {
            last
        } else {
            json_members(members.drop_last()) + seq![','] + last
        }
    }
}

/// A JSON object with these members.
pub open spec fn json_object(members: Seq<(Seq<char>, Seq<char>)>) -> Seq<char> {
    seq!['{'] + json_members(members) + seq!['}']
}

/// Whether `members` holds every entry of `map` once.
pub open spec fn enumerates(members: Seq<(Seq<char>, Seq<char>)>, map: Map<Seq<char>, Seq<char>>) -> bool {
    &&& forall|i: int, j: int|
        0 <= i < j < members.len() ==> (#[trigger] members[i]).0 != (#[trigger] members[j]).0
    &&& forall|i: int|
        0 <= i < members.len() ==> map.contains_key((#[trigger] members[i]).0) && map[members[i].0] == members[i].1
    &&& forall|k: Seq<char>| #[trigger]
        map.contains_key(k) ==> exists|i: int| 0 <= i < members.len() && (#[trigger] members[i]).0 == k
}

/// Whether `text` is a JSON object with the entries of `map`, in some order.
pub open spec fn is_json_of(text: Seq<char>, map: Map<Seq<char>, Seq<char>>) -> bool {
    exists|members: Seq<(Seq<char>, Seq<char>)>| #[trigger]
        enumerates(members, map) && text == json_object(members)
}

/// The error of the JSON serializer.
#[verifier::external_type_specification]
#[verifier::external_body]
pub struct ExJsonError(serde_json::Error);

/// `serde_json::to_string` on a hash map of strings.
///
/// Claimed of it: it never fails on such a map, and it writes a JSON object
/// without white space that holds every entry once, in the order in which the
/// map is walked, with quotes, backslashes and control characters escaped.
#[verifier::external_body]
fn to_json(tags: &TagMap) -> (r: Result<String, serde_json::Error>)
    requires
        tags.well_formed(),
    ensures
        r is Ok,
        is_json_of(r->Ok_0@, tags@),
{
    let map: HashMap<String, String> = tags.entries.iter().cloned().collect();
    serde_json::to_string(&map)
}

// ── TagMap ────────────────────────────────────────────────────────────────────

/// Text by name; each name occurs once.
pub struct TagMap {
    pub entries: Vec<(String, String)>,
}

/// The characters of the entries.
pub open spec fn pairs(entries: Seq<(String, String)>) -> Seq<(Seq<char>, Seq<char>)> {
    Seq::new(entries.len(), |i: int| (entries[i].0@, entries[i].1@))
}

/// The map that a list of entries stands for.
pub open spec fn pair_map(members: Seq<(Seq<char>, Seq<char>)>) -> Map<Seq<char>, Seq<char>>
    decreases members.len(),
{
    if members.len() == 0 {
        Map::empty()
    } else {
        pair_map(members.drop_last()).insert(members.last().0, members.last().1)
    }
}

impl View for TagMap {
    type V = Map<Seq<char>, Seq<char>>;

    open spec fn view(&self) -> Map<Seq<char>, Seq<char>> {
        pair_map(pairs(self.entries@))
    }
}

proof fn lemma_enumerates(members: Seq<(Seq<char>, Seq<char>)>)
    requires
        forall|i: int, j: int|
            0 <= i < j < members.len() ==> (#[trigger] members[i]).0 != (#[trigger] members[j]).0,
    ensures
        enumerates(members, pair_map(members)),
    decreases members.len(),
{
    if members.len() > 0 {
        let front = members.drop_last();
        lemma_enumerates(front);
        let map = pair_map(members);
        assert forall|i: int| 0 <= i < members.len() implies map.contains_key((#[trigger] members[i]).0)
            && map[members[i].0] == members[i].1 by {
            if i < members.len() - 1 {
                assert(front[i] == members[i]);
            }
        }
        assert forall|k: Seq<char>| #[trigger] map.contains_key(k) implies exists|i: int|
            0 <= i < members.len() && (#[trigger] members[i]).0 == k by {
            if k == members.last().0 {
                assert(members[members.len() - 1].0 == k);
            } else {
                assert(pair_map(front).contains_key(k));
                let i = choose|i: int| 0 <= i < front.len() && (#[trigger] front[i]).0 == k;
                assert(members[i].0 == k);
            }
        }
    }
}

/// Lists that enumerate the same entries stand for the same map.
proof fn lemma_same_map(members: Seq<(Seq<char>, Seq<char>)>, map: Map<Seq<char>, Seq<char>>)
    requires
        enumerates(members, map),
    ensures
        pair_map(members) == map,
{
    lemma_enumerates(members);
    let other = pair_map(members);
    assert forall|k: Seq<char>| #[trigger] map.contains_key(k) <==> other.contains_key(k) by {
        if map.contains_key(k) {
            let i = choose|i: int| 0 <= i < members.len() && (#[trigger] members[i]).0 == k;
            assert(other.contains_key(members[i].0));
        }
        if other.contains_key(k) {
            let i = choose|i: int| 0 <= i < members.len() && (#[trigger] members[i]).0 == k;
            assert(map.contains_key(members[i].0));
        }
    }
    assert forall|k: Seq<char>| #[trigger] map.contains_key(k) implies map[k] == other[k] by {
        let i = choose|i: int| 0 <= i < members.len() && (#[trigger] members[i]).0 == k;
        assert(map[members[i].0] == members[i].1);
        assert(other[members[i].0] == members[i].1);
    }
    assert(pair_map(members) =~= map);
}

impl TagMap {
    pub open spec fn well_formed(self) -> bool {
        forall|i: int, j: int|
            0 <= i < j < self.entries@.len() ==> (#[trigger] self.entries@[i]).0@ != (#[trigger] self.entries@[j]).0@
    }

    pub fn new() -> (r: Self)
        ensures
            r.well_formed(),
            r@ == Map::<Seq<char>, Seq<char>>::empty(),
    {
        TagMap { entries: Vec::new() }
    }

    /// Sets the text of `key`, which replaces an earlier one.
    pub fn insert(&mut self, key: String, value: String)
        requires
            old(self).well_formed(),
        ensures
            final(self).well_formed(),
            final(self)@ == old(self)@.insert(key@, value@),
    {
        let n: usize = self.entries.len();
        let ghost before = pairs(self.entries@);
        let ghost map = self@;
        let ghost k = key@;
        let ghost v = value@;
        proof {
            lemma_enumerates(before);
        }
        let mut i: usize = 0;
        while i < n
            invariant
                i <= n,
                n == self.entries@.len(),
                *self == *old(self),
                before == pairs(self.entries@),
                k == key@,
                v == value@,
                map == pair_map(before),
                enumerates(before, map),
                self.well_formed(),
                forall|j: int| 0 <= j < i ==> (#[trigger] before[j]).0 != k,
            decreases n - i,
        {
            if same_text(self.entries[i].0.as_str(), key.as_str()) {
                self.entries.set(i, (key, value));
                proof {
                    let after = pairs(self.entries@);
                    assert(after =~= before.update(i as int, (k, v)));
                    assert(before[i as int].0 == k);
                    assert forall|x: int, y: int| 0 <= x < y < self.entries@.len() implies (
                    #[trigger] self.entries@[x]).0@ != (#[trigger] self.entries@[y]).0@ by {
                        assert(before[x].0 != before[y].0);
                        assert(after[x].0 == before[x].0);
                        assert(after[y].0 == before[y].0);
                    }
                    let next = map.insert(k, v);
                    assert forall|x: int| 0 <= x < after.len() implies next.contains_key((#[trigger] after[x]).0)
                        && next[after[x].0] == after[x].1 by {
                        assert(map.contains_key(before[x].0));
                        if x != i {
                            assert(before[x].0 != before[i as int].0);
                        }
                    }
                    assert forall|q: Seq<char>| #[trigger] next.contains_key(q) implies exists|x: int|
                        0 <= x < after.len() && (#[trigger] after[x]).0 == q by {
                        if q == k {
                            assert(after[i as int].0 == k);
                        } else {
                            assert(map.contains_key(q));
                            let x = choose|x: int| 0 <= x < before.len() && (#[trigger] before[x]).0 == q;
                            assert(after[x].0 == q);
                        }
                    }
                    assert forall|x: int, y: int| 0 <= x < y < after.len() implies (#[trigger] after[x]).0 != (
                    #[trigger] after[y]).0 by {
                        assert(self.entries@[x].0@ != self.entries@[y].0@);
                    }
                    lemma_same_map(after, next);
                }
                return;
            }
            i = i + 1;
        }
        self.entries.push((key, value));
        proof {
            let after = pairs(self.entries@);
            assert(after.drop_last() =~= before);
            assert forall|x: int, y: int| 0 <= x < y < self.entries@.len() implies (
            #[trigger] self.entries@[x]).0@ != (#[trigger] self.entries@[y]).0@ by {
                assert(before[x].0 == old(self).entries@[x].0@);
                if y < n {
                    assert(old(self).entries@[x].0@ != old(self).entries@[y].0@);
                }
            }
        }
    }
}

// ── Tags ──────────────────────────────────────────────────────────────────────

/// `s` in lower case.
pub uninterp spec fn lower_case(s: Seq<char>) -> Seq<char>;

/// `str::to_lowercase`, whose result depends on the characters of its argument
/// alone; nothing more is claimed of it.
#[verifier::external_body]
fn to_lower_case(s: &str) -> (r: String)
    ensures
        r@ == lower_case(s@),
{
    s.to_lowercase()
}

/// The entries that a list of tags gives, a later tag replacing an earlier one
/// of the same name.
pub open spec fn tag_map(tags: Seq<(String, String)>) -> Map<Seq<char>, Seq<char>> {
    pair_map(pairs(tags))
}

/// The characters of tags with their names in lower case.
pub open spec fn lower_pairs(tags: Seq<(String, String)>) -> Seq<(Seq<char>, Seq<char>)> {
    Seq::new(tags.len(), |i: int| (lower_case(tags[i].0@), tags[i].1@))
}

/// The entries that the tags of a file give once their names are in lower case.
pub open spec fn lower_tag_map(tags: Seq<(String, String)>) -> Map<Seq<char>, Seq<char>> {
    pair_map(lower_pairs(tags))
}

/// Puts the names of tags into lower case.
pub fn lower_names(tags: &Vec<(String, String)>) -> (r: Vec<(String, String)>)
    ensures
        pairs(r@) == lower_pairs(tags@),
{
    let mut r: Vec<(String, String)> = Vec::new();
    let mut i: usize = 0;
    while i < tags.len()
        invariant
            i <= tags@.len(),
            r@.len() == i,
            forall|k: int|
                0 <= k < i ==> (#[trigger] r@[k]).0@ == lower_case(tags@[k].0@) && r@[k].1@ == tags@[k].1@,
        decreases tags@.len() - i,
    {
        r.push((to_lower_case(tags[i].0.as_str()), tags[i].1.clone()));
        i = i + 1;
    }
    assert(pairs(r@) =~= lower_pairs(tags@));
    r
}

/// Collects tags; the last one of each name stays.
pub fn collect_tags(tags: &Vec<(String, String)>) -> (r: TagMap)
    ensures
        r.well_formed(),
        r@ == tag_map(tags@),
{
    let mut r = TagMap::new();
    let mut i: usize = 0;
    assert(pairs(tags@).take(0) =~= Seq::<(Seq<char>, Seq<char>)>::empty());
    while i < tags.len()
        invariant
            i <= tags@.len(),
            r.well_formed(),
            r@ == pair_map(pairs(tags@).take(i as int)),
        decreases tags@.len() - i,
    {
        r.insert(tags[i].0.clone(), tags[i].1.clone());
        proof {
            let all = pairs(tags@);
            assert(all.take(i + 1).drop_last() =~= all.take(i as int));
            assert(all.take(i + 1).last() == all[i as int]);
        }
        i = i + 1;
    }
    assert(pairs(tags@).take(tags@.len() as int) =~= pairs(tags@));
    r
}

// ── Tracks ────────────────────────────────────────────────────────────────────

/// What a file says of one of its tracks.
pub struct TrackInfo {
    /// Whether the track has a codec.
    pub decodable: bool,
    pub channels: Option<usize>,
    pub sample_rate: Option<u32>,
    pub n_frames: Option<u64>,
    /// The codec's identifier.
    pub codec: String,
}

/// Whether track `i` is the first decodable one.
pub open spec fn first_decodable(tracks: Seq<TrackInfo>, i: int) -> bool {
    &&& 0 <= i < tracks.len()
    &&& tracks[i].decodable
    &&& forall|k: int| 0 <= k < i ==> !(#[trigger] tracks[k]).decodable
}

/// Whether no track is decodable.
pub open spec fn none_decodable(tracks: Seq<TrackInfo>) -> bool {
    forall|i: int| 0 <= i < tracks.len() ==> !(#[trigger] tracks[i]).decodable
}

/// The track to play: the first decodable one.
pub fn select_track(tracks: &Vec<TrackInfo>) -> (r: Option<usize>)
    ensures
        match r {
            Some(i) => first_decodable(tracks@, i as int),
            None => none_decodable(tracks@),
        },
{
    let mut i: usize = 0;
    while i < tracks.len()
        invariant
            i <= tracks@.len(),
            forall|k: int| 0 <= k < i ==> !(#[trigger] tracks@[k]).decodable,
        decreases tracks@.len() - i,
    {
        if tracks[i].decodable {
            return Some(i);
        }
        i = i + 1;
    }
    None
}

/// The entries `base` with what is known of `track`, whose duration in seconds
/// is the text `duration`.
pub open spec fn with_track(
    base: Map<Seq<char>, Seq<char>>,
    track: TrackInfo,
    duration: Seq<char>,
) -> Map<Seq<char>, Seq<char>> {
    let a = match track.channels {
        Some(n) => base.insert("channels"@, crate::text::decimal(n as nat)),
        None => base,
    };
    let b = match track.sample_rate {
        Some(n) => a.insert("sample_rate"@, crate::text::decimal(n as nat)),
        None => a,
    };
    let c = match track.n_frames {
        Some(n) => b.insert("frame_count"@, crate::text::decimal(n as nat)),
        None => b,
    };
    let d = if track.n_frames is Some && track.sample_rate is Some {
        c.insert("duration_seconds"@, duration)
    } else {
        c
    };
    d.insert("codec"@, track.codec@)
}

/// Whether `duration` is the text of the track's duration, where it is known.
pub open spec fn lasts<M: AudioMath>(track: TrackInfo, duration: Seq<char>) -> bool {
    match (track.n_frames, track.sample_rate) {
        (Some(frames), Some(rate)) => exists|text: String| #[trigger]
            call_ensures(M::duration_text, (frames, rate), text) && text@ == duration,
        _ => true,
    }
}

/// Whether `map` is `base` with what is known of `track`.
pub open spec fn describes<M: AudioMath>(
    base: Map<Seq<char>, Seq<char>>,
    track: TrackInfo,
    map: Map<Seq<char>, Seq<char>>,
) -> bool {
    exists|duration: Seq<char>| #[trigger] lasts::<M>(track, duration) && map == with_track(base, track, duration)
}

/// Adds what is known of a track to the tags of its file.
pub fn describe_track<M: AudioMath>(tags: &mut TagMap, track: &TrackInfo)
    requires
        old(tags).well_formed(),
    ensures
        final(tags).well_formed(),
        describes::<M>(old(tags)@, *track, final(tags)@),
{
    if let Some(n) = track.channels {
        tags.insert("channels".to_owned(), decimal_text(n as u64));
    }
    if let Some(n) = track.sample_rate {
        tags.insert("sample_rate".to_owned(), decimal_text(n as u64));
    }
    let ghost mut duration = Seq::<char>::empty();
    if let Some(frames) = track.n_frames {
        tags.insert("frame_count".to_owned(), decimal_text(frames));
        if let Some(rate) = track.sample_rate {
            let text = M::duration_text(frames, rate);
            proof {
                duration = text@;
                assert(call_ensures(M::duration_text, (frames, rate), text));
            }
            tags.insert("duration_seconds".to_owned(), text);
        }
    }
    tags.insert("codec".to_owned(), track.codec.clone());
    assert(lasts::<M>(*track, duration));
}

/// Whether `text` is a JSON object with the tags of a file, their names in lower
/// case, and what is known of `track`.
pub open spec fn is_metadata<M: AudioMath>(tags: Seq<(String, String)>, track: TrackInfo, text: Seq<char>) -> bool {
    exists|map: Map<Seq<char>, Seq<char>>| #[trigger]
        describes::<M>(lower_tag_map(tags), track, map) && is_json_of(text, map)
}

/// The tags and codec information of a file as a JSON object: its tags with
/// lower-case names, and what is known of its first decodable track.
pub fn get_metadata<M: AudioMath>(tags: &Vec<(String, String)>, tracks: &Vec<TrackInfo>) -> (r: Result<String, String>)
    ensures
        match r {
            Ok(text) => exists|i: int| #[trigger]
                first_decodable(tracks@, i) && is_metadata::<M>(tags@, tracks@[i], text@),
            Err(e) => e@ == "No decodable audio track found"@ && none_decodable(tracks@),
        },
{
    let lowered = lower_names(tags);
    let mut entries = collect_tags(&lowered);
    let index: usize = match select_track(tracks) {
        Some(i) => i,
        None => return Err("No decodable audio track found".to_owned()),
    };
    describe_track::<M>(&mut entries, &tracks[index]);
    match to_json(&entries) {
        Ok(text) => {
            assert(describes::<M>(lower_tag_map(tags@), tracks@[index as int], entries@));
            assert(first_decodable(tracks@, index as int));
            Ok(text)
        },
        Err(_) => Err("Failed to serialize metadata".to_owned()),
    }
}

/// The duration of a file in milliseconds: that of its first decodable track.
/// Returns `-1` if it cannot be determined, or if the file could not be read,
/// so that `tracks` is `None`.
pub fn estimate_duration_millis<M: AudioMath>(tracks: Option<&Vec<TrackInfo>>) -> (r: i32)
    ensures
        match tracks {
            None => r == -1,
            Some(tracks) => {
                &&& none_decodable(tracks@) ==> r == -1
                &&& forall|i: int| #[trigger]
                    first_decodable(tracks@, i) ==> match (tracks@[i].n_frames, tracks@[i].sample_rate) {
                        (Some(frames), Some(rate)) => call_ensures(M::duration_millis, (frames, rate), r),
                        _ => r == -1,
                    }
            },
        },
{
    match tracks {
        None => -1,
        Some(tracks) => match select_track(tracks) {
            None => -1,
            Some(i) => match (tracks[i].n_frames, tracks[i].sample_rate) {
                (Some(frames), Some(rate)) => M::duration_millis(frames, rate),
                _ => -1,
            },
        },
    }
}

// ── Pictures ──────────────────────────────────────────────────────────────────

/// A visual embedded in a file.
pub struct Visual {
    pub media_type: String,
    pub data: Vec<u8>,
}

/// Whether a visual is an image, of whatever format.
pub open spec fn is_picture(visual: Visual) -> bool {
    "image/"@.is_prefix_of(visual.media_type@)
}

/// Whether visual `i` is the first image.
pub open spec fn first_picture(visuals: Seq<Visual>, i: int) -> bool {
    &&& 0 <= i < visuals.len()
    &&& is_picture(visuals[i])
    &&& forall|k: int| 0 <= k < i ==> !is_picture(#[trigger] visuals[k])
}

/// Whether `data` is the data of the first image, or empty where there is none.
pub open spec fn is_thumbnail(visuals: Seq<Visual>, data: Seq<u8>) -> bool {
    &&& forall|i: int| #[trigger] first_picture(visuals, i) ==> data == visuals[i].data@
    &&& (forall|i: int| 0 <= i < visuals.len() ==> !is_picture(#[trigger] visuals[i])) ==> data == Seq::<u8>::empty()
}

/// The data of the first embedded image; empty if there is none.
pub fn get_thumbnail(visuals: &Vec<Visual>) -> (r: Vec<u8>)
    ensures
        is_thumbnail(visuals@, r@),
{
    let mut i: usize = 0;
    while i < visuals.len()
        invariant
            i <= visuals@.len(),
            forall|k: int| 0 <= k < i ==> !is_picture(#[trigger] visuals@[k]),
        decreases visuals@.len() - i,
    {
        if begins_with(visuals[i].media_type.as_str(), "image/") {
            return visuals[i].data.clone();
        }
        i = i + 1;
    }
    Vec::new()
}

} // verus!

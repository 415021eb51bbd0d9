//! The player configuration of a video.

use std::collections::HashMap;

use vstd::prelude::*;

use crate::error::PluginError;
use crate::literal;
use crate::text;

verus! {

/// `serde_json::Value`, carried unopened inside [`ProgressiveEntry`].
#[verifier::external_type_specification]
#[verifier::external_body]
pub struct ExJsonValue(serde_json::Value);

/// The part of the player config that is used. `F` is the type of frame
/// rates.
#[derive(Debug)]
pub struct PlayerConfig<F> {
    pub request: RequestConfig<F>,
    pub video: Option<VideoMeta>,
}

#[derive(Debug)]
pub struct RequestConfig<F> {
    pub files: FilesConfig<F>,
}

#[derive(Debug)]
pub struct FilesConfig<F> {
    pub progressive: Vec<ProgressiveEntry<F>>,
    pub hls: Option<HlsEntry>,
    pub dash: Option<HlsEntry>,
}

impl<F> Default for FilesConfig<F> {
    fn default() -> (files: Self)
        ensures
            files.progressive@.len() == 0,
            files.hls is None,
            files.dash is None,
    {
        FilesConfig { progressive: Vec::new(), hls: None, dash: None }
    }
}

/// A progressive download of a video.
#[derive(Debug)]
pub struct ProgressiveEntry<F> {
    pub profile: Option<serde_json::Value>,
    pub quality: String,
    pub width: Option<u32>,
    pub height: Option<u32>,
    pub fps: Option<F>,
    pub mime: Option<String>,
    pub url: String,
}

/// An adaptive stream and the networks that deliver it.
#[derive(Debug)]
pub struct HlsEntry {
    pub cdns: CdnTable,
    pub default_cdn: Option<String>,
}

#[derive(Debug)]
pub struct CdnEntry {
    pub url: String,
    pub avc_url: Option<String>,
}

#[derive(Debug)]
pub struct VideoMeta {
    pub id: Option<u64>,
    pub title: Option<String>,
    pub duration: Option<u64>,
    pub thumbs: Option<HashMap<String, String>>,
}

/// Delivery networks by name. No name occurs twice.
#[derive(Debug)]
pub struct CdnTable {
    entries: Vec<(String, CdnEntry)>,
}

/// `a` stands before `b` in the order of their characters.
pub open spec fn precedes(a: Seq<char>, b: Seq<char>) -> bool
    decreases a.len(),
{
    if b.len() == 0 {
        false
    } else if a.len() == 0 {
        true
    } else if a[0] == b[0] {
        precedes(a.drop_first(), b.drop_first())
    } else {
        (a[0] as int) < (b[0] as int)
    }
}

/// `name` stands before every other of `names`.
pub open spec fn is_first_name(names: Set<Seq<char>>, name: Seq<char>) -> bool {
    &&& names.contains(name)
    &&& forall|other: Seq<char>| #[trigger] names.contains(other) ==> !precedes(other, name)
}

/// Of two different texts exactly one stands before the other.
pub proof fn lemma_precedes_is_total(a: Seq<char>, b: Seq<char>)
    ensures
        a == b ==> !precedes(a, b),
        a != b ==> precedes(a, b) != precedes(b, a),
    decreases a.len(),
{
    if a.len() > 0 && b.len() > 0 && a[0] == b[0] {
        lemma_precedes_is_total(a.drop_first(), b.drop_first());
        if a.drop_first() == b.drop_first() {
            assert(a =~= seq![a[0]] + a.drop_first());
            assert(b =~= seq![b[0]] + b.drop_first());
        }
    }
    if a.len() == 0 && b.len() == 0 {
        assert(a =~= b);
    }
}

/// What stands before a text stands before all that comes behind it.
pub proof fn lemma_precedes_is_transitive(a: Seq<char>, b: Seq<char>, c: Seq<char>)
    requires
        precedes(a, b),
        precedes(b, c),
    ensures
        precedes(a, c),
    decreases a.len(),
{
    if a.len() > 0 && a[0] == b[0] && b[0] == c[0] {
        lemma_precedes_is_transitive(a.drop_first(), b.drop_first(), c.drop_first());
    }
}

/// At most one of a set of names comes first: the choice does not depend on
/// the order in which the names are walked.
pub proof fn law_first_name_is_unique(names: Set<Seq<char>>, a: Seq<char>, b: Seq<char>)
    requires
        is_first_name(names, a),
        is_first_name(names, b),
    ensures
        a == b,
{
    lemma_precedes_is_total(a, b);
}

fn stands_before(a: &str, b: &str) -> (r: bool)
    ensures
        r == precedes(a@, b@),
{
    let xs: Vec<char> = text::chars_of(a);
    let ys: Vec<char> = text::chars_of(b);
    let mut i: usize = 0;
    assert(xs@.skip(0) =~= xs@);
    assert(ys@.skip(0) =~= ys@);
    while i < xs.len() && i < ys.len() && xs[i] == ys[i]
        invariant
            i <= xs.len(),
            i <= ys.len(),
            precedes(xs@, ys@) == precedes(xs@.skip(i as int), ys@.skip(i as int)),
        decreases xs.len() - i,
    {
        assert(xs@.skip(i as int).drop_first() =~= xs@.skip(i + 1));
        assert(ys@.skip(i as int).drop_first() =~= ys@.skip(i + 1));
        i += 1;
    }
    if i == ys.len() {
        false
    } else if i == xs.len() {
        true
    } else {
        xs[i] < ys[i]
    }
}

/// `i` holds the entry named `key`.
spec fn is_entry(entries: Seq<(String, CdnEntry)>, key: Seq<char>, i: int) -> bool {
    0 <= i < entries.len() && entries[i].0@ == key
}

/// No name occurs twice.
spec fn has_distinct_names(entries: Seq<(String, CdnEntry)>) -> bool {
    forall|i: int, j: int|
        0 <= i < j < entries.len() ==> (#[trigger] entries[i]).0@ != (#[trigger] entries[j]).0@
}

impl View for CdnTable {
    type V = Map<Seq<char>, CdnEntry>;

    closed spec fn view(&self) -> Map<Seq<char>, CdnEntry> {
        Map::new(
            |key: Seq<char>| exists|i: int| is_entry(self.entries@, key, i),
            |key: Seq<char>| self.entries@[choose|i: int| is_entry(self.entries@, key, i)].1,
        )
    }
}

impl CdnTable {
    #[verifier::type_invariant]
    spec fn wf(self) -> bool {
        has_distinct_names(self.entries@)
    }

    /// The entry named `key` is the one at its index.
    proof fn lemma_entry(self, i: int)
        requires
            self.wf(),
            0 <= i < self.entries@.len(),
        ensures
            self@.dom().contains(self.entries@[i].0@),
            self@[self.entries@[i].0@] == self.entries@[i].1,
    {
        let key = self.entries@[i].0@;
        assert(is_entry(self.entries@, key, i));
        let k = choose|k: int| is_entry(self.entries@, key, k);
        assert(k == i);
    }

    /// An empty table.
    pub fn new() -> (table: Self)
        ensures
            table@ == Map::<Seq<char>, CdnEntry>::empty(),
    {
        let table = CdnTable { entries: Vec::new() };
        assert(table@ =~= Map::<Seq<char>, CdnEntry>::empty());
        table
    }

    /// Files `entry` under `name`, in place of what was there.
    pub fn insert(&mut self, name: String, entry: CdnEntry)
        ensures
            final(self)@ == old(self)@.insert(name@, entry),
            final(self)@.dom().contains(name@) && final(self)@[name@] == entry,
            forall|other: Seq<char>|
                other != name@ ==> (#[trigger] final(self)@.dom().contains(other) <==> old(
                    self,
                )@.dom().contains(other)),
            forall|other: Seq<char>|
                other != name@ && old(self)@.dom().contains(other) ==> #[trigger] final(self)@[other]
                    == old(self)@[other],
    {
        proof {
            use_type_invariant(&*self);
        }
        let mut entries: Vec<(String, CdnEntry)> = Vec::new();
        std::mem::swap(&mut entries, &mut self.entries);
        let ghost before = entries@;
        assert(before == old(self).entries@);
        let mut i: usize = 0;
        while i < entries.len() && !text::same_text(entries[i].0.as_str(), name.as_str())
            invariant
                i <= entries.len(),
                entries@ == before,
                forall|j: int| 0 <= j < i ==> (#[trigger] before[j]).0@ != name@,
            decreases entries.len() - i,
        {
            i += 1;
        }
        let ghost key = name@;
        let ghost at = i as int;
        if i < entries.len() {
            entries.set(i, (name, entry));
        } else {
            entries.push((name, entry));
        }
        let table = CdnTable { entries };
        proof {
            table.lemma_entry(at);
            assert(table@ =~= old(self)@.insert(key, entry)) by {
                assert forall|k: Seq<char>|
                    table@.dom().contains(k) <==> old(self)@.insert(key, entry).dom().contains(
                        k,
                    ) by {
                    if table@.dom().contains(k) && k != key {
                        let j = choose|j: int| is_entry(table.entries@, k, j);
                        assert(is_entry(before, k, j));
                    }
                    if old(self)@.dom().contains(k) && k != key {
                        let j = choose|j: int| is_entry(before, k, j);
                        assert(is_entry(table.entries@, k, j));
                    }
                }
                assert forall|k: Seq<char>| #[trigger]
                    table@.dom().contains(k) && k != key implies table@[k] == old(self)@[k] by {
                    let j = choose|j: int| is_entry(table.entries@, k, j);
                    table.lemma_entry(j);
                    assert(is_entry(before, k, j));
                    old(self).lemma_entry(j);
                }
            }
        }
        *self = table;
    }

    /// The entry filed under `name`.
    pub fn get(&self, name: &str) -> (r: Option<&CdnEntry>)
        ensures
            match r {
                Some(entry) => self@.dom().contains(name@) && *entry == self@[name@],
                None => !self@.dom().contains(name@),
            },
    {
        proof {
            use_type_invariant(self);
        }
        let mut i: usize = 0;
        while i < self.entries.len()
            invariant
                i <= self.entries.len(),
                self.wf(),
                forall|j: int| 0 <= j < i ==> (#[trigger] self.entries@[j]).0@ != name@,
            decreases self.entries.len() - i,
        {
            if text::same_text(self.entries[i].0.as_str(), name) {
                proof {
                    self.lemma_entry(i as int);
                }
                return Some(&self.entries[i].1);
            }
            i += 1;
        }
        None
    }

    /// The entry whose name comes first.
    pub fn first(&self) -> (r: Option<&CdnEntry>)
        ensures
            match r {
                Some(entry) => exists|name: Seq<char>| #[trigger]
                    is_first_name(self@.dom(), name) && *entry == self@[name],
                None => self@.dom() =~= Set::<Seq<char>>::empty(),
            },
    {
        proof {
            use_type_invariant(self);
        }
        if self.entries.len() == 0 {
            return None;
        }
        let mut best: usize = 0;
        let mut i: usize = 1;
        proof {
            lemma_precedes_is_total(self.entries@[0].0@, self.entries@[0].0@);
        }
        while i < self.entries.len()
            invariant
                best < i <= self.entries.len(),
                forall|j: int|
                    0 <= j < i ==> !precedes(
                        (#[trigger] self.entries@[j]).0@,
                        self.entries@[best as int].0@,
                    ),
            decreases self.entries.len() - i,
        {
            let ghost old_best = self.entries@[best as int].0@;
            let ghost new_name = self.entries@[i as int].0@;
            if stands_before(self.entries[i].0.as_str(), self.entries[best].0.as_str()) {
                proof {
                    assert forall|j: int| 0 <= j <= i implies !precedes(
                        (#[trigger] self.entries@[j]).0@,
                        new_name,
                    ) by {
                        if j < i && precedes(self.entries@[j].0@, new_name) {
                            lemma_precedes_is_transitive(self.entries@[j].0@, new_name, old_best);
                        }
                        lemma_precedes_is_total(new_name, new_name);
                    }
                }
                best = i;
            }
            i += 1;
        }
        proof {
            let name = self.entries@[best as int].0@;
            self.lemma_entry(best as int);
            assert forall|other: Seq<char>| #[trigger]
                self@.dom().contains(other) implies !precedes(other, name) by {
                let j = choose|j: int| is_entry(self.entries@, other, j);
                assert(self.entries@[j].0@ == other);
            }
            assert(is_first_name(self@.dom(), name));
        }
        Some(&self.entries[best].1)
    }
}

/// What parsing `raw` with `decode` may give: the config that `raw` decodes
/// to, or else the outcome of decoding it once more with its single-quoted
/// strings rewritten.
pub open spec fn is_parsed_config<F, D: Fn(&str) -> Result<PlayerConfig<F>, String>>(
    decode: D,
    raw: &str,
    r: Result<PlayerConfig<F>, PluginError>,
) -> bool {
    exists|strict: Result<PlayerConfig<F>, String>| #[trigger]
        call_ensures(decode, (raw,), strict) && match strict {
            Ok(config) => r == Ok::<PlayerConfig<F>, PluginError>(config),
            Err(_) => exists|normalised: &str, lenient: Result<PlayerConfig<F>, String>| #[trigger]
                call_ensures(decode, (normalised,), lenient) && normalised@ == literal::rewritten(
                    literal::Mode::Plain,
                    raw@,
                ) && r == (match lenient {
                    Ok(config) => Ok::<PlayerConfig<F>, PluginError>(config),
                    Err(reason) => Err(PluginError::ParseJson(reason)),
                }),
        }
}

/// Parses a player config.
///
/// The config endpoint serves strict JSON, which decodes at once. The config
/// embedded in a page is a JavaScript object literal that may hold
/// single-quoted strings: it decodes after a rewrite.
pub fn parse_player_config<F, D: Fn(&str) -> Result<PlayerConfig<F>, String>>(
    raw: &str,
    decode: &D,
) -> (r: Result<PlayerConfig<F>, PluginError>)
    requires
        forall|s: &str| #[trigger] call_requires(*decode, (s,)),
    ensures
        is_parsed_config(*decode, raw, r),
{
    match (*decode)(raw) {
        Ok(config) => Ok(config),
        Err(_) => {
            let normalised: String = literal::js_object_literal_to_json(raw);
            match (*decode)(normalised.as_str()) {
                Ok(config) => Ok(config),
                Err(reason) => Err(PluginError::ParseJson(reason)),
            }
        },
    }
}

/// `decode` is a decoder of JSON: it gives one config for one text, and takes
/// no text that quotes with `'` or breaks off behind a backslash.
pub open spec fn is_json_decoder<F, D: Fn(&str) -> Result<PlayerConfig<F>, String>>(
    decode: D,
) -> bool {
    &&& forall|
        s: &str,
        t: &str,
        a: Result<PlayerConfig<F>, String>,
        b: Result<PlayerConfig<F>, String>,
    |
        #![trigger call_ensures(decode, (s,), a), call_ensures(decode, (t,), b)]
        call_ensures(decode, (s,), a) && call_ensures(decode, (t,), b) && s@ == t@ && a is Ok ==> a
            == b
    &&& forall|s: &str, a: Result<PlayerConfig<F>, String>| #[trigger]
        call_ensures(decode, (s,), a) && a is Ok ==> literal::is_double_quoted(
            literal::Mode::Plain,
            s@,
        )
}

/// A config reads the same with its quotes made single: where `raw` holds no
/// `'` and no `\` and parses to a config, its single-quoted form parses to
/// that config. This holds of every decoder of JSON.
pub proof fn law_single_quoted_config_parses_alike<
    F,
    D: Fn(&str) -> Result<PlayerConfig<F>, String>,
>(
    decode: D,
    raw: &str,
    single: &str,
    config: PlayerConfig<F>,
    r: Result<PlayerConfig<F>, PluginError>,
)
    requires
        is_json_decoder(decode),
        !raw@.contains('\''),
        !raw@.contains('\\'),
        single@ == literal::single_quoted(raw@),
        is_parsed_config(decode, raw, Ok::<PlayerConfig<F>, PluginError>(config)),
        is_parsed_config(decode, single, r),
    ensures
        r == Ok::<PlayerConfig<F>, PluginError>(config),
{
    literal::law_single_quotes_are_undone(raw@);
    literal::lemma_single_quoted_is_not_json(raw@);
    literal::law_json_passes_through(raw@);
}

/// What cannot be parsed is reported as a parse error, and as nothing else.
pub proof fn law_config_error_is_a_parse_error<
    F,
    D: Fn(&str) -> Result<PlayerConfig<F>, String>,
>(decode: D, raw: &str, r: Result<PlayerConfig<F>, PluginError>)
    requires
        is_parsed_config(decode, raw, r),
    ensures
        r matches Err(error) ==> error is ParseJson,
{
}

/// Names are in the order of a dictionary: the first character in which they
/// differ decides, by its code, and a name stands before every longer one that
/// begins with it.
pub proof fn law_names_are_in_dictionary_order(
    common: Seq<char>,
    a: char,
    b: char,
    x: Seq<char>,
    y: Seq<char>,
)
    ensures
        precedes(common + seq![a] + x, common + seq![b] + y) == (if a == b {
            precedes(x, y)
        } else {
            (a as u32) < (b as u32)
        }),
        precedes(common, common + seq![a] + x),
        !precedes(common + seq![a] + x, common),
    decreases common.len(),
{
    let left = common + seq![a] + x;
    let right = common + seq![b] + y;
    if common.len() == 0 {
        assert(left.drop_first() =~= x);
        assert(right.drop_first() =~= y);
    } else {
        let rest = common.drop_first();
        law_names_are_in_dictionary_order(rest, a, b, x, y);
        assert(left.drop_first() =~= rest + seq![a] + x);
        assert(right.drop_first() =~= rest + seq![b] + y);
        assert(left[0] == common[0] && right[0] == common[0]);
    }
}

/// A text that decodes is that config, and one that does not is decoded once
/// more with its single-quoted strings rewritten: that outcome is final.
pub proof fn law_decoding_decides<F, D: Fn(&str) -> Result<PlayerConfig<F>, String>>(
    decode: D,
    raw: &str,
    r: Result<PlayerConfig<F>, PluginError>,
    strict: spec_fn(Seq<char>) -> Result<PlayerConfig<F>, String>,
)
    requires
        is_parsed_config(decode, raw, r),
        forall|s: &str, d: Result<PlayerConfig<F>, String>| #[trigger]
            call_ensures(decode, (s,), d) ==> d == strict(s@),
    ensures
        match strict(raw@) {
            Ok(config) => r == Ok::<PlayerConfig<F>, PluginError>(config),
            Err(_) => match strict(literal::rewritten(literal::Mode::Plain, raw@)) {
                Ok(config) => r == Ok::<PlayerConfig<F>, PluginError>(config),
                Err(reason) => r == Err::<PlayerConfig<F>, PluginError>(
                    PluginError::ParseJson(reason),
                ),
            },
        },
{
}

/// Parsing follows the decoder: the text as it is, and if that does not decode
/// the text with its single-quoted strings rewritten. The second outcome is
/// final.
pub proof fn law_parsing_follows_the_decoder<F, D: Fn(&str) -> Result<PlayerConfig<F>, String>>(
    decode: D,
    raw: &str,
    r: Result<PlayerConfig<F>, PluginError>,
    strict: spec_fn(Seq<char>) -> Result<PlayerConfig<F>, String>,
)
    requires
        call_ensures(parse_player_config::<F, D>, (raw, &decode), r),
        forall|s: &str, d: Result<PlayerConfig<F>, String>| #[trigger]
            call_ensures(decode, (s,), d) ==> d == strict(s@),
    ensures
        strict(raw@) matches Ok(config) ==> r == Ok::<PlayerConfig<F>, PluginError>(config),
        strict(raw@) is Err ==> match strict(literal::rewritten(literal::Mode::Plain, raw@)) {
            Ok(config) => r == Ok::<PlayerConfig<F>, PluginError>(config),
            Err(reason) => r == Err::<PlayerConfig<F>, PluginError>(PluginError::ParseJson(reason)),
        },
{
    law_decoding_decides(decode, raw, r, strict);
}

} // verus!

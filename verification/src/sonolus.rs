//! The chart data model: what a level server hands out.
//!
//! Scalar values of chart entities are carried in millionths (see
//! [`crate::units`]): a `#BEAT` of `2_500_000` is beat two and a half.

use crate::text::same_text;
use vstd::prelude::*;

verus! {

/// A resource of a server: where it lies, and the hash of what lies there.
#[derive(Debug)]
pub struct Srl {
    pub hash: String,
    pub url: String,
}

/// One page of a level listing.
#[derive(Debug)]
pub struct LevelListResponse {
    pub items: Vec<LevelInfo>,
    pub page_count: i32,
}

/// The envelope around a single item.
#[derive(Debug)]
pub struct ItemResponse<T> {
    pub item: T,
}

/// A chart object: a note, a connector between notes, a tempo change.
#[derive(Debug)]
pub struct LevelEntity {
    /// The tag that tells the entity's role.
    pub archetype: String,
    /// Its named fields, in the order of the chart.
    pub data: Vec<LevelEntityData>,
    /// The name by which other entities refer to it, if any do.
    pub name: Option<String>,
}

/// A named field of an entity: a scalar, or the name of another entity.
#[derive(Debug)]
pub struct LevelEntityData {
    pub name: String,
    /// The scalar, in millionths.
    pub value: Option<i64>,
    /// The name of the entity referred to.
    pub reference: Option<String>,
}

/// The clips of an effect package.
#[derive(Debug)]
pub struct EffectData {
    pub clips: Vec<EffectClip>,
}

/// A clip of an effect package: its logical name, and its file in the
/// package's archive.
#[derive(Debug)]
pub struct EffectClip {
    pub name: String,
    pub filename: String,
}

/// A chart: its entities, and the offset of its background track in
/// microseconds.
#[derive(Debug)]
pub struct LevelData {
    pub bgm_offset: i64,
    pub entities: Vec<LevelEntity>,
}

/// What a server tells about a level.
#[derive(Debug)]
pub struct LevelInfo {
    pub title: String,
    pub artists: String,
    pub author: String,
    pub name: String,
    pub rating: i32,
    pub bgm: Srl,
    pub data: Srl,
    pub engine: EngineInfo,
}

/// The engine a level is played with.
#[derive(Debug)]
pub struct EngineInfo {
    pub version: i32,
    pub effect: EffectInfo,
}

/// The effect package of an engine.
#[derive(Debug)]
pub struct EffectInfo {
    pub audio: Srl,
    pub data: Srl,
}

/// Index of the first field from `from` on that is called `key`.
pub open spec fn first_field(data: Seq<LevelEntityData>, key: Seq<char>, from: nat) -> Option<int>
    decreases data.len() - from,
{
    if from >= data.len() {
        None
    } else if data[from as int].name@ == key {
        Some(from as int)
    } else {
        first_field(data, key, from + 1)
    }
}

/// Index of the first entity from `from` on that goes by `name`.
pub open spec fn first_named(entities: Seq<LevelEntity>, name: Seq<char>, from: nat) -> Option<int>
    decreases entities.len() - from,
{
    if from >= entities.len() {
        None
    } else if entities[from as int].name matches Some(own) && own@ == name {
        Some(from as int)
    } else {
        first_named(entities, name, from + 1)
    }
}

impl LevelEntity {
    /// The scalar of the first field called `key`, if there is such a field
    /// and it holds a scalar.
    pub open spec fn value_of(&self, key: Seq<char>) -> Option<i64> {
        match first_field(self.data@, key, 0) {
            Some(i) => self.data@[i].value,
            None => None,
        }
    }

    /// The name in the first field called `key`, if there is such a field and
    /// it refers to an entity.
    pub open spec fn reference_of(&self, key: Seq<char>) -> Option<Seq<char>> {
        match first_field(self.data@, key, 0) {
            Some(i) => match self.data@[i].reference {
                Some(target) => Some(target@),
                None => None,
            },
            None => None,
        }
    }

    /// Index, among `entities`, of the entity that the field `key` refers to:
    /// the first that goes by the name in that field.
    pub open spec fn target_of(&self, entities: Seq<LevelEntity>, key: Seq<char>) -> Option<int> {
        match self.reference_of(key) {
            Some(target) => first_named(entities, target, 0),
            None => None,
        }
    }

    fn find_field(&self, key: &str) -> (found: Option<usize>)
        ensures
            match found {
                Some(i) => first_field(self.data@, key@, 0) == Some(i as int) && i < self.data@.len(),
                None => first_field(self.data@, key@, 0) is None,
            },
    {
        let mut i: usize = 0;
        while i < self.data.len()
            invariant
                i <= self.data@.len(),
                first_field(self.data@, key@, 0) == first_field(self.data@, key@, i as nat),
            decreases self.data@.len() - i,
        {
            if same_text(self.data[i].name.as_str(), key) {
                return Some(i);
            }
            i = i + 1;
        }
        None
    }

    /// Looks up the scalar field `key`.
    pub fn get_value(&self, key: &str) -> (value: Option<i64>)
        ensures
            value == self.value_of(key@),
    {
        match self.find_field(key) {
            Some(i) => self.data[i].value,
            None => None,
        }
    }

    /// Looks up the name that the field `key` refers to.
    pub fn get_ref_raw(&self, key: &str) -> (target: Option<String>)
        ensures
            match target {
                Some(name) => self.reference_of(key@) == Some(name@),
                None => self.reference_of(key@) is None,
            },
    {
        match self.find_field(key) {
            Some(i) => match &self.data[i].reference {
                Some(name) => Some(name.clone()),
                None => None,
            },
            None => None,
        }
    }

    /// Resolves the field `key` to the entity it refers to, looked for among
    /// `entities`. An entity without a name is never found.
    pub fn get_ref<'a>(&self, entities: &'a [LevelEntity], key: &str) -> (target: Option<&'a LevelEntity>)
        ensures
            match target {
                Some(entity) => self.target_of(entities@, key@) matches Some(i) && *entity
                    == entities@[i],
                None => self.target_of(entities@, key@) is None,
            },
    {
        let wanted = match self.get_ref_raw(key) {
            Some(name) => name,
            None => {
                return None;
            },
        };
        let mut i: usize = 0;
        while i < entities.len()
            invariant
                i <= entities@.len(),
                self.reference_of(key@) == Some(wanted@),
                first_named(entities@, wanted@, 0) == first_named(entities@, wanted@, i as nat),
            decreases entities@.len() - i,
        {
            match &entities[i].name {
                Some(own) => {
                    if same_text(own.as_str(), wanted.as_str()) {
                        return Some(&entities[i]);
                    }
                },
                None => {},
            }
            i = i + 1;
        }
        None
    }
}

} // verus!

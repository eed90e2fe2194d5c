//! What Home Assistant is told about a sensor when it is announced.

use crate::config::{InverterConfig, SensorConfig};
use vstd::prelude::*;
use vstd::string::{StrSliceExecFns, StringExecFns};

verus! {

/// The announcement of one sensor.
pub struct Discovery {
    pub name: String,
    pub object_id: String,
    pub unique_id: String,
    pub state_topic: String,
    pub device: Device,
    pub device_class: String,
    pub unit_of_measurement: String,
    pub icon: String,
}

/// The device that a sensor belongs to.
#[derive(Clone)]
pub struct Device {
    pub name: String,
    pub identifiers: Vec<String>,
    pub manufacturer: String,
    pub model: String,
}

/// The upper-case form of a character, as `char::to_uppercase` gives it. It
/// may be longer than one character.
pub uninterp spec fn uppercase_of(c: char) -> Seq<char>;

/// A text with its first character in upper case.
pub open spec fn capitalized(s: Seq<char>) -> Seq<char> {
    if s.len() == 0 {
        s
    } else {
        uppercase_of(s[0]) + s.skip(1)
    }
}

/// Calls `char::to_uppercase` and collects what it yields.
///
/// Trusted: the result is a function of the character alone, named
/// [`uppercase_of`].
#[verifier::external_body]
fn char_to_uppercase(c: char) -> (upper: String)
    ensures
        upper@ == uppercase_of(c),
{
    c.to_uppercase().collect::<String>()
}

/// Puts `initial` in the place of the first character of `s`. An empty `s`
/// gives `initial` alone.
pub fn replace_initial(initial: String, s: &str) -> (r: String)
    ensures
        r@ == initial@ + (if s@.len() > 0 {
            s@.skip(1)
        } else {
            s@
        }),
{
    let n = s.unicode_len();
    if n == 0 {
        assert(initial@ + s@ =~= initial@);
        return initial;
    }
    let rest = s.substring_char(1, n);
    assert(s@.subrange(1, n as int) =~= s@.skip(1));
    initial.concat(rest)
}

/// Returns `s` with its first character in upper case.
pub fn capitalize(s: &str) -> (r: String)
    ensures
        r@ == capitalized(s@),
{
    if s.unicode_len() == 0 {
        return s.to_owned();
    }
    let upper = char_to_uppercase(s.get_char(0));
    replace_initial(upper, s)
}

/// The end of the word that holds position `from`: the first position at or
/// after `from` that holds an underscore; the length of `s` if there is none.
pub open spec fn word_end(s: Seq<char>, from: int) -> int
    decreases s.len() - from,
{
    if 0 <= from < s.len() && s[from] != '_' {
        word_end(s, from + 1)
    } else {
        from
    }
}

/// A name as a title: its words, which underscores separate, each with its
/// first character in upper case, and a space between one word and the
/// next.
pub open spec fn title_cased(s: Seq<char>) -> Seq<char>
    decreases s.len(),
{
    let end = word_end(s, 0);
    if 0 <= end < s.len() {
        capitalized(s.subrange(0, end)) + seq![' '] + title_cased(s.skip(end + 1))
    } else {
        capitalized(s)
    }
}

/// The name of an entity: the inverter's id, an underscore, and the
/// sensor's name.
pub open spec fn entity_name_of(inverter_id: Seq<char>, sensor_name: Seq<char>) -> Seq<char> {
    inverter_id + seq!['_'] + sensor_name
}

/// The topic under which everything about an inverter is published.
pub open spec fn base_topic_of(inverter_id: Seq<char>) -> Seq<char> {
    "homeassistant/sensor/"@ + inverter_id
}

/// The topic of an entity, below the inverter's.
pub open spec fn entity_topic_of(base_topic: Seq<char>, entity_name: Seq<char>) -> Seq<char> {
    base_topic + seq!['/'] + entity_name
}

/// The topic on which an entity is announced.
pub open spec fn config_topic_of(base_topic: Seq<char>, entity_name: Seq<char>) -> Seq<char> {
    entity_topic_of(base_topic, entity_name) + "/config"@
}

/// The topic on which an entity's value is published.
pub open spec fn state_topic_of(base_topic: Seq<char>, entity_name: Seq<char>) -> Seq<char> {
    entity_topic_of(base_topic, entity_name) + "/state"@
}

/// The name under which a sensor is shown: the one it was given, or else
/// its name as a title.
pub open spec fn discovery_name_of(sensor: SensorConfig) -> Seq<char> {
    match sensor.human_name {
        Some(name) => name@,
        None => title_cased(sensor.name@),
    }
}

/// Returns `name` as a title.
pub fn title_case(name: &str) -> (r: String)
    ensures
        r@ == title_cased(name@),
{
    let n = name.unicode_len();
    let mut result = String::new();
    let mut from: usize = 0;
    let mut at: usize = 0;
    proof {
        reveal_strlit(" ");
        assert(name@.skip(0) =~= name@);
        assert(result@ + title_cased(name@) =~= title_cased(name@));
    }
    while at < n
        invariant
            n == name@.len(),
            from <= at <= n,
            title_cased(name@) == result@ + title_cased(name@.skip(from as int)),
            word_end(name@.skip(from as int), 0) == word_end(name@.skip(from as int), at - from),
        decreases n - at,
    {
        let ghost word = name@.skip(from as int);
        if name.get_char(at) == '_' {
            let ghost before = result@;
            let part = name.substring_char(from, at);
            let upper = capitalize(part);
            result.append(upper.as_str());
            result.append(" ");
            proof {
                reveal_strlit(" ");
                assert(" "@ =~= seq![' ']);
                assert(word[at - from] == '_');
                assert(word_end(word, at - from) == at - from);
                assert(word.subrange(0, at - from) =~= name@.subrange(from as int, at as int));
                assert(word.skip(at - from + 1) =~= name@.skip(at + 1));
                assert(result@ =~= before + (capitalized(word.subrange(0, at - from)) + seq![' ']));
                assert(title_cased(word) == capitalized(word.subrange(0, at - from)) + seq![' ']
                    + title_cased(word.skip(at - from + 1)));
                assert(title_cased(name@) =~= result@ + title_cased(name@.skip(at + 1)));
            }
            from = at + 1;
        } else {
            proof {
                assert(word[at - from] == name@[at as int]);
                assert(word_end(word, at - from) == word_end(word, at - from + 1));
            }
        }
        at = at + 1;
    }
    let part = name.substring_char(from, n);
    let upper = capitalize(part);
    proof {
        let word = name@.skip(from as int);
        assert(word =~= name@.subrange(from as int, n as int));
        assert(word_end(word, n - from) == n - from);
    }
    result.append(upper.as_str());
    result
}

/// The name of an entity.
pub fn entity_name(inverter_id: &str, sensor_name: &str) -> (r: String)
    ensures
        r@ == entity_name_of(inverter_id@, sensor_name@),
{
    proof {
        reveal_strlit("_");
        assert("_"@ =~= seq!['_']);
    }
    let mut name = inverter_id.to_owned();
    name.append("_");
    name.append(sensor_name);
    name
}

/// The topic under which everything about an inverter is published.
pub fn base_topic(inverter_id: &str) -> (r: String)
    ensures
        r@ == base_topic_of(inverter_id@),
{
    let mut topic = "homeassistant/sensor/".to_owned();
    topic.append(inverter_id);
    topic
}

/// The topic of an entity, below the inverter's.
pub fn entity_topic(base_topic: &str, entity_name: &str) -> (r: String)
    ensures
        r@ == entity_topic_of(base_topic@, entity_name@),
{
    proof {
        reveal_strlit("/");
        assert("/"@ =~= seq!['/']);
    }
    let mut topic = base_topic.to_owned();
    topic.append("/");
    topic.append(entity_name);
    topic
}

/// The topic on which an entity is announced.
pub fn config_topic(base_topic: &str, entity_name: &str) -> (r: String)
    ensures
        r@ == config_topic_of(base_topic@, entity_name@),
{
    let mut topic = entity_topic(base_topic, entity_name);
    topic.append("/config");
    topic
}

/// The topic on which an entity's value is published.
pub fn state_topic(base_topic: &str, entity_name: &str) -> (r: String)
    ensures
        r@ == state_topic_of(base_topic@, entity_name@),
{
    let mut topic = entity_topic(base_topic, entity_name);
    topic.append("/state");
    topic
}

/// The name under which a sensor is shown.
pub fn discovery_name(sensor: &SensorConfig) -> (r: String)
    ensures
        r@ == discovery_name_of(*sensor),
{
    match &sensor.human_name {
        Some(name) => name.clone(),
        None => title_case(sensor.name.as_str()),
    }
}

impl Discovery {
    /// The announcement of `sensor` of `inverter`, whose topics lie below
    /// `base_topic`.
    pub fn new(inverter: &InverterConfig, sensor: &SensorConfig, base_topic: &str) -> (r: Discovery)
        ensures
            r.name@ == discovery_name_of(*sensor),
            r.object_id@ == entity_name_of(inverter.id@, sensor.name@),
            r.unique_id@ == entity_name_of(inverter.id@, sensor.name@),
            r.state_topic@ == state_topic_of(
                base_topic@,
                entity_name_of(inverter.id@, sensor.name@),
            ),
            r.device.name@ == inverter.name@,
            r.device.identifiers@.len() == 1,
            r.device.identifiers@[0]@ == inverter.id@,
            r.device.manufacturer@ == inverter.manufacturer@,
            r.device.model@ == inverter.model@,
            r.device_class@ == sensor.device_class@,
            r.unit_of_measurement@ == sensor.unit_of_measurement@,
            r.icon@ == sensor.icon@,
    {
        let entity = entity_name(inverter.id.as_str(), sensor.name.as_str());
        let mut identifiers: Vec<String> = Vec::new();
        identifiers.push(inverter.id.clone());
        Discovery {
            name: discovery_name(sensor),
            object_id: entity.clone(),
            unique_id: entity.clone(),
            state_topic: state_topic(base_topic, entity.as_str()),
            device: Device {
                name: inverter.name.clone(),
                identifiers,
                manufacturer: inverter.manufacturer.clone(),
                model: inverter.model.clone(),
            },
            device_class: sensor.device_class.clone(),
            unit_of_measurement: sensor.unit_of_measurement.clone(),
            icon: sensor.icon.clone(),
        }
    }
}

} // verus!

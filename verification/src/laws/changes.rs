//! Laws of the operations that change a value in place. Each holds of every call:
//! `call_ensures(f, args, res)` is what `f` promises of its arguments and its
//! result, and `final` is a value after the call.
use crate::arxiv::{finish_field, ArxivPlugin, FeedParser, TextField};
use crate::laws::replies;
use crate::laws::requests;
use crate::pubmed::PubmedPlugin;
use crate::query::{GatewaySearchEvent, GatewayWireError};
use crate::serve;
use crate::serve::{
    plugin_configured, AppState, EventLine, EventStream, HostedPlugin, SetupOutcome,
};
use crate::text_map::TextMap;
use crate::types::{put_field, ConfigError};
use crate::xml::XmlToken;
use vstd::prelude::*;

verus! {

/// A plugin is told whether its cache could be opened: it answers just that, is
/// well from then on where it could, and asks the same host as before.
pub proof fn law_configure_opens_the_cache()
    ensures
        forall|p: &mut ArxivPlugin, opened: Result<(), ConfigError>, res: Result<(), ConfigError>|
            #[trigger]
            call_ensures(ArxivPlugin::configure, (p, opened), res) ==> {
                &&& res == opened
                &&& final(p).base_url@ == p.base_url@
                &&& opened is Ok ==> final(p).cache_open
                &&& opened is Err ==> final(p).cache_open == p.cache_open
            },
        forall|p: &mut PubmedPlugin, opened: Result<(), ConfigError>, res: Result<(), ConfigError>|
            #[trigger]
            call_ensures(PubmedPlugin::configure, (p, opened), res) ==> {
                &&& res == opened
                &&& final(p).search_base@ == p.search_base@
                &&& final(p).pdf_base@ == p.pdf_base@
                &&& opened is Ok ==> final(p).cache_open
                &&& opened is Err ==> final(p).cache_open == p.cache_open
            },
{
}

/// Hosting a plugin leaves the version and the state directory, makes the plugin
/// the one that its key reaches, and leaves what every other key reaches.
pub proof fn law_hosting_adds_the_plugin()
    ensures
        forall|state: &mut AppState, plugin: HostedPlugin, res: ()|
            #[trigger]
            call_ensures(AppState::host, (state, plugin), res) && serve::distinct_keys(
                state@.plugins,
            ) ==> {
                &&& final(state)@.version == state@.version
                &&& final(state)@.state_dir == state@.state_dir
                &&& serve::hosted(final(state)@.plugins, plugin.key@) == Some(plugin@)
                &&& forall|key: Seq<char>|
                    key != plugin.key@ ==> #[trigger] serve::hosted(final(state)@.plugins, key)
                        == serve::hosted(state@.plugins, key)
            },
{
    assert forall|state: &mut AppState, plugin: HostedPlugin, res: ()|
        #[trigger]
        call_ensures(AppState::host, (state, plugin), res) && serve::distinct_keys(
            state@.plugins,
        ) implies {
        &&& final(state)@.version == state@.version
        &&& final(state)@.state_dir == state@.state_dir
        &&& serve::hosted(final(state)@.plugins, plugin.key@) == Some(plugin@)
        &&& forall|key: Seq<char>|
            key != plugin.key@ ==> #[trigger] serve::hosted(final(state)@.plugins, key)
                == serve::hosted(state@.plugins, key)
    } by {
        replies::law_hosted_plugin_is_reached(state@.plugins, plugin@, plugin.key@);
        assert forall|key: Seq<char>|
            key != plugin.key@ implies #[trigger] serve::hosted(final(state)@.plugins, key)
            == serve::hosted(state@.plugins, key) by {
            replies::law_hosted_plugin_is_reached(state@.plugins, plugin@, key);
        }
    }
}

/// While a stream is open, an event's line is its JSON and a line feed; one that
/// cannot be encoded closes the stream, and an internal error that gives the
/// reason takes its place. A closed stream sends nothing and stays closed.
pub proof fn law_event_is_sent_while_open()
    ensures
        forall|s: &mut EventStream, encoded: Result<Vec<u8>, String>, res: Option<EventLine>|
            #[trigger]
            call_ensures(EventStream::event_line, (s, encoded), res) ==> {
                &&& !s.open ==> res is None && !final(s).open
                &&& s.open && encoded is Ok ==> final(s).open && (res matches Some(
                    EventLine::Line(line),
                ) && line@ == encoded->Ok_0@.push(10u8))
                &&& s.open && encoded is Err ==> !final(s).open && (res matches Some(
                    EventLine::Last(GatewaySearchEvent::Error(GatewayWireError::Internal(m))),
                ) && requests::is_made_of(m@, seq!["event serialize: "@, encoded->Err_0@]))
            },
{
    assert forall|s: &mut EventStream, encoded: Result<Vec<u8>, String>, res: Option<EventLine>|
        #[trigger]
        call_ensures(EventStream::event_line, (s, encoded), res) implies {
        &&& !s.open ==> res is None && !final(s).open
        &&& s.open && encoded is Ok ==> final(s).open && (res matches Some(EventLine::Line(line))
            && line@ == encoded->Ok_0@.push(10u8))
        &&& s.open && encoded is Err ==> !final(s).open && (res matches Some(
            EventLine::Last(GatewaySearchEvent::Error(GatewayWireError::Internal(m))),
        ) && requests::is_made_of(m@, seq!["event serialize: "@, encoded->Err_0@]))
    } by {
        if s.open && encoded is Err {
            if let Some(EventLine::Last(event)) = res {
                replies::law_encoding_failure_gives_the_reason(event, encoded->Err_0@);
            }
        }
    }
}

/// A plugin that was set up is kept under its id; one that lacks a setting is
/// not, and the start goes on; any other failure stops it, with its message, and
/// leaves what was kept.
pub proof fn law_set_up_plugin_is_kept()
    ensures
        forall|
            kept: &mut TextMap<usize>,
            state_dir: &str,
            index: usize,
            id: &str,
            outcome: SetupOutcome,
            res: Result<(), String>,
        |
            #[trigger]
            call_ensures(plugin_configured, (kept, state_dir, index, id, outcome), res)
                ==> match outcome {
                SetupOutcome::Configured(Ok(_)) => res is Ok && final(kept)@ == kept@.insert(
                    id@,
                    index,
                ),
                SetupOutcome::Configured(Err(ConfigError::MissingConfig { .. })) => res is Ok
                    && final(kept)@ == kept@,
                SetupOutcome::Configured(Err(ConfigError::Other(message))) => (res matches Err(m)
                    && m@ == message@) && final(kept)@ == kept@,
                SetupOutcome::NoDirectory(e) => (res matches Err(m) && m@ == "create cache dir "@
                    + serve::plugin_dir(state_dir@, id@) + " for "@ + id@ + ": "@ + e@)
                    && final(kept)@ == kept@,
            },
{
}

/// A field is stored where there is a value, and nothing else changes.
pub proof fn law_field_is_put()
    ensures
        forall|fields: &mut TextMap<String>, key: &str, value: Option<String>, res: ()|
            #[trigger]
            call_ensures(put_field, (fields, key, value), res) ==> {
                &&& value matches Some(v) ==> final(fields)@ == fields@.insert(key@, v@)
                &&& value is None ==> final(fields)@ == fields@
            },
{
}

/// Leaving a field drops the text collected for it.
pub proof fn law_field_is_left()
    ensures
        forall|field: &mut TextField, buf: &mut String, res: ()|
            #[trigger]
            call_ensures(finish_field, (field, buf), res) ==> {
                &&& *final(field) is Outside
                &&& final(buf)@.len() == 0
            },
{
}

/// The parser begins with nothing and takes in one token at a time, as the laws
/// of reading a feed say.
pub proof fn law_parser_takes_in_tokens()
    ensures
        forall|p: FeedParser|
            #[trigger]
            call_ensures(FeedParser::new, (), p) ==> p@ == crate::arxiv::feed_start(),
        forall|p: &mut FeedParser, token: &XmlToken, res: ()|
            #[trigger]
            call_ensures(FeedParser::step, (p, token), res) ==> final(p)@
                == crate::arxiv::feed_step(p@, token@),
{
}

/// A map begins empty; storing puts a value under its key and leaves the others,
/// and what is stored is found.
pub proof fn law_map_stores_and_finds<V: View>()
    ensures
        forall|m: TextMap<V>|
            #[trigger]
            call_ensures(TextMap::<V>::new, (), m) ==> m@ == Map::<Seq<char>, V::V>::empty(),
        forall|m: &mut TextMap<V>, key: String, value: V, res: ()|
            #[trigger]
            call_ensures(TextMap::<V>::insert, (m, key, value), res) ==> {
                &&& final(m)@.contains_key(key@)
                &&& final(m)@[key@] == value@
                &&& final(m)@.remove(key@) == m@.remove(key@)
            },
        forall|m: &TextMap<V>, key: &str, res: Option<&V>|
            #[trigger]
            call_ensures(TextMap::<V>::get, (m, key), res) ==> {
                &&& res is Some <==> m@.contains_key(key@)
                &&& res matches Some(v) ==> v@ == m@[key@]
            },
{
    assert forall|m: &mut TextMap<V>, key: String, value: V, res: ()|
        #[trigger]
        call_ensures(TextMap::<V>::insert, (m, key, value), res) implies {
        &&& final(m)@.contains_key(key@)
        &&& final(m)@[key@] == value@
        &&& final(m)@.remove(key@) == m@.remove(key@)
    } by {
        assert(final(m)@.remove(key@) =~= m@.remove(key@));
    }
}

} // verus!

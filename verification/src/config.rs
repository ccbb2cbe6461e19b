//! The configuration: which scripts run and which addresses can be opened.
use vstd::prelude::*;

use crate::seqs;
use crate::text::joined;

verus! {

/// What the configuration file holds.
#[derive(Debug)]
pub struct Config {
    pub scripts: Vec<ScriptConfig>,
    pub urls: Option<Vec<UrlConfig>>,
}

/// One script: its name and the shell command that it runs.
#[derive(Debug)]
pub struct ScriptConfig {
    pub name: String,
    pub cmd: String,
}

/// One address that can be opened, under a name.
#[derive(Debug)]
pub struct UrlConfig {
    pub name: String,
    pub url: String,
}

/// The model of a [`ScriptConfig`].
pub struct ScriptConfigModel {
    pub name: Seq<char>,
    pub cmd: Seq<char>,
}

/// The model of a [`UrlConfig`].
pub struct UrlModel {
    pub name: Seq<char>,
    pub url: Seq<char>,
}

/// The model of a [`Config`]; no list of addresses is an empty one.
pub struct ConfigModel {
    pub scripts: Seq<ScriptConfigModel>,
    pub urls: Seq<UrlModel>,
}

impl View for ScriptConfig {
    type V = ScriptConfigModel;

    open spec fn view(&self) -> ScriptConfigModel {
        ScriptConfigModel { name: self.name@, cmd: self.cmd@ }
    }
}

impl View for UrlConfig {
    type V = UrlModel;

    open spec fn view(&self) -> UrlModel {
        UrlModel { name: self.name@, url: self.url@ }
    }
}

impl View for Config {
    type V = ConfigModel;

    open spec fn view(&self) -> ConfigModel {
        ConfigModel {
            scripts: seqs::views(self.scripts@),
            urls: match self.urls {
                Some(urls) => seqs::views(urls@),
                None => Seq::empty(),
            },
        }
    }
}

impl Clone for ScriptConfig {
    fn clone(&self) -> (r: Self)
        ensures
            r@ == self@,
    {
        ScriptConfig { name: self.name.clone(), cmd: self.cmd.clone() }
    }
}

impl Clone for UrlConfig {
    fn clone(&self) -> (r: Self)
        ensures
            r@ == self@,
    {
        UrlConfig { name: self.name.clone(), url: self.url.clone() }
    }
}

/// The names of the scripts, in order.
pub open spec fn names(scripts: Seq<ScriptConfigModel>) -> Seq<Seq<char>> {
    scripts.map_values(|s: ScriptConfigModel| s.name)
}

/// The item at `i` occurs before `i` too.
pub open spec fn repeats(s: Seq<Seq<char>>, i: int) -> bool {
    exists|j: int| 0 <= j < i && #[trigger] s[j] == s[i]
}

/// The least index not below `from` whose item occurs before it too.
pub open spec fn first_repeat_from(s: Seq<Seq<char>>, from: int) -> Option<int>
    decreases s.len() - from,
{
    if from < 0 || from >= s.len() {
        None
    } else if repeats(s, from) {
        Some(from)
    } else {
        first_repeat_from(s, from + 1)
    }
}

/// A configuration that can run: it names a script, and no two scripts share a name.
pub open spec fn acceptable(c: ConfigModel) -> bool {
    c.scripts.len() > 0 && seqs::distinct(names(c.scripts))
}

/// Why a configuration is refused, if it is.
pub open spec fn objection(c: ConfigModel) -> Option<Seq<char>> {
    if c.scripts.len() == 0 {
        Some("at least one [[scripts]] entry is required"@)
    } else {
        match first_repeat_from(names(c.scripts), 0) {
            Some(k) => Some("duplicate script name: "@ + c.scripts[k].name),
            None => None,
        }
    }
}

/// What becomes of a document: its reader's complaint, an objection, or the configuration.
pub open spec fn parse_model(document: Result<ConfigModel, Seq<char>>) -> Result<
    ConfigModel,
    Seq<char>,
> {
    match document {
        Err(e) => Err("invalid config: "@ + e),
        Ok(c) => match objection(c) {
            Some(e) => Err(e),
            None => Ok(c),
        },
    }
}

/// What becomes of a file: the complaint about reading it, or what its document becomes.
pub open spec fn load_model(
    path: Seq<char>,
    file: Result<Result<ConfigModel, Seq<char>>, Seq<char>>,
) -> Result<ConfigModel, Seq<char>> {
    match file {
        Err(e) => Err("failed to read "@ + path + ": "@ + e),
        Ok(document) => parse_model(document),
    }
}

/// The model of a configuration or a message.
pub open spec fn outcome(r: Result<Config, String>) -> Result<ConfigModel, Seq<char>> {
    match r {
        Ok(c) => Ok(c@),
        Err(e) => Err(e@),
    }
}

/// The model of a document or the message about reading its file.
pub open spec fn file_outcome(r: Result<Result<Config, String>, String>) -> Result<
    Result<ConfigModel, Seq<char>>,
    Seq<char>,
> {
    match r {
        Ok(document) => Ok(outcome(document)),
        Err(e) => Err(e@),
    }
}

fn occurs_before(scripts: &Vec<ScriptConfig>, at: usize) -> (r: bool)
    requires
        at < scripts.len(),
    ensures
        r == repeats(names(seqs::views(scripts@)), at as int),
{
    let ghost all = names(seqs::views(scripts@));
    for i in 0..at
        invariant
            at < scripts.len(),
            all == names(seqs::views(scripts@)),
            forall|j: int| 0 <= j < i ==> #[trigger] all[j] != all[at as int],
    {
        if scripts[i].name == scripts[at].name {
            assert(all[i as int] == all[at as int]);
            return true;
        }
        assert(all[i as int] != all[at as int]);
    }
    false
}

/// Accepts or refuses what the reader of the file format made of a document.
///
/// A document that it could not read is refused with its message. Of the others, one without
/// scripts is refused, and one in which two scripts share a name, for the first name that comes
/// up a second time.
pub fn parse(document: Result<Config, String>) -> (r: Result<Config, String>)
    ensures
        outcome(r) == parse_model(outcome(document)),
        document is Ok && r is Ok ==> r == document,
{
    let config = match document {
        Ok(c) => c,
        Err(e) => {
            return Err(joined("invalid config: ", e.as_str()));
        },
    };
    if config.scripts.is_empty() {
        return Err("at least one [[scripts]] entry is required".to_string());
    }
    let ghost all = names(config@.scripts);
    for i in 0..config.scripts.len()
        invariant
            all == names(config@.scripts),
            outcome(document) == Ok::<ConfigModel, Seq<char>>(config@),
            config@.scripts.len() > 0,
            first_repeat_from(all, 0) == first_repeat_from(all, i as int),
    {
        if occurs_before(&config.scripts, i) {
            return Err(joined("duplicate script name: ", config.scripts[i].name.as_str()));
        }
    }
    Ok(config)
}

/// Accepts or refuses the file at `path`, given what came of opening it: its document as its
/// reader sees it, or the message of the system.
pub fn load(path: &str, file: Result<Result<Config, String>, String>) -> (r: Result<
    Config,
    String,
>)
    ensures
        outcome(r) == load_model(path@, file_outcome(file)),
{
    match file {
        Err(e) => Err(
            joined(joined(joined("failed to read ", path).as_str(), ": ").as_str(), e.as_str()),
        ),
        Ok(document) => parse(document),
    }
}

proof fn lemma_first_repeat(s: Seq<Seq<char>>, from: int)
    requires
        0 <= from,
    ensures
        match first_repeat_from(s, from) {
            Some(k) => from <= k < s.len() && repeats(s, k),
            None => forall|k: int| from <= k < s.len() ==> !#[trigger] repeats(s, k),
        },
    decreases s.len() - from,
{
    if from < s.len() && !repeats(s, from) {
        lemma_first_repeat(s, from + 1);
    }
}

/// A readable document is accepted, as it stands, exactly if it can run.
pub proof fn accepted_iff_acceptable(c: ConfigModel)
    ensures
        acceptable(c) <==> parse_model(Ok(c)) == Ok::<ConfigModel, Seq<char>>(c),
        acceptable(c) <==> parse_model(Ok(c)) is Ok,
{
    let all = names(c.scripts);
    lemma_first_repeat(all, 0);
    match first_repeat_from(all, 0) {
        Some(k) => {
            let j = choose|j: int| 0 <= j < k && #[trigger] all[j] == all[k];
            assert(all[j] == all[k]);
            assert(!seqs::distinct(all));
        },
        None => {
            assert forall|i: int, j: int| 0 <= i < j < all.len() implies #[trigger] all[i]
                != #[trigger] all[j] by {
                assert(!repeats(all, j));
            }
        },
    }
}

} // verus!

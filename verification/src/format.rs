//! Taking one file through its chain of plugins.

use crate::pool::text_result;
use crate::pool::OptionalPluginAndPool;
use crate::pool::Plugin;
use crate::pool::PluginPool;
use crate::pool::TakePluginResult;
use crate::registry::pools_of_chain;
use crate::registry::resolve_chain;
use crate::registry::PluginPools;
use crate::sync::now;
use std::sync::Arc;
use std::time::Instant;
use vstd::pervasive::unreached;
use vstd::prelude::*;
use vstd::string::StrSliceExecFns;
use vstd::string::StringExecFns;

verus! {

/// Why a file was not formatted.
#[derive(Debug, PartialEq, Eq)]
pub enum FormatError {
    /// The configuration of a plugin has this many problems. This ends the
    /// whole run: no file that needs the plugin can be formatted.
    ConfigDiagnostics(usize),
    /// Formatting this file failed, for the reason given. Other files are
    /// not affected.
    Failed(String),
}

/// What became of a file.
#[derive(Clone, Copy, Debug, PartialEq, Eq)]
pub enum FileOutcome {
    /// The file has not changed since it was last formatted: no plugin ran.
    Skipped,
    /// The file went through every plugin of its chain.
    Formatted,
}

/// The outcome of a call of a handler as a mathematical value.
pub open spec fn handled_result(result: Result<(), String>) -> Result<(), Seq<char>> {
    match result {
        Ok(_) => Ok(()),
        Err(message) => Err(message@),
    }
}

/// Where files are read from and messages are written to.
pub trait Environment {
    /// What [`Environment::read_file`] may answer for a path. An
    /// environment that does not say what it answers allows everything.
    open spec fn reads(&self, file_path: Seq<char>, result: Result<Seq<char>, Seq<char>>) -> bool {
        true
    }

    /// The text of a file, or the reason why it cannot be read.
    fn read_file(&self, file_path: &str) -> (result: Result<String, String>)
        ensures
            self.reads(file_path@, text_result(result)),
    ;

    /// Writes a message for those who asked to see everything.
    fn log_verbose(&self, text: &str);
}

/// The record of the files as they were when they were last formatted.
pub trait IncrementalFile {
    /// What [`IncrementalFile::is_file_same`] may answer for a file and its
    /// text. A record that does not say what it answers allows everything.
    open spec fn says_same(&self, file_path: Seq<char>, file_text: Seq<char>, same: bool) -> bool {
        true
    }

    /// Whether the file had this text when it was last recorded.
    fn is_file_same(&self, file_path: &str, file_text: &str) -> (same: bool)
        ensures
            self.says_same(file_path@, file_text@, same),
    ;

    /// Records the text that the file has now.
    fn update_file(&self, file_path: &str, file_text: &str);
}

/// What is done with a formatted file.
pub trait FormatHandler<E: Environment> {
    /// What [`FormatHandler::handle`] may answer when it is called with
    /// these values. A handler that does not say what it answers allows
    /// everything.
    open spec fn handles(
        &self,
        file_path: Seq<char>,
        file_text: Seq<char>,
        formatted_text: Seq<char>,
        had_bom: bool,
        result: Result<(), Seq<char>>,
    ) -> bool {
        true
    }

    /// Called once for every file that went through its chain, with the
    /// text that was read (without its byte order mark), the formatted
    /// text, whether the file had a byte order mark, and the time at which
    /// formatting started.
    fn handle(
        &self,
        file_path: &str,
        file_text: &str,
        formatted_text: String,
        had_bom: bool,
        start: Instant,
        environment: &E,
    ) -> (result: Result<(), String>)
        ensures
            self.handles(
                file_path@,
                file_text@,
                formatted_text@,
                had_bom,
                handled_result(result),
            ),
    ;
}

/// The text of a file, with its byte order mark set apart.
pub struct FileText {
    text: String,
    has_bom: bool,
}

/// The byte order mark.
pub open spec fn bom() -> char {
    '\u{FEFF}'
}

/// Whether a text starts with a byte order mark.
pub open spec fn starts_with_bom(text: Seq<char>) -> bool {
    text.len() > 0 && text[0] == bom()
}

/// A text without the byte order mark that it may start with.
pub open spec fn without_bom(text: Seq<char>) -> Seq<char> {
    if starts_with_bom(text) {
        text.skip(1)
    } else {
        text
    }
}

impl FileText {
    /// The text without its byte order mark.
    pub closed spec fn spec_text(&self) -> Seq<char> {
        self.text@
    }

    /// Whether the text had a byte order mark.
    pub closed spec fn spec_has_bom(&self) -> bool {
        self.has_bom
    }

    /// Sets the byte order mark of a text apart.
    pub fn new(text: String) -> (file_text: Self)
        ensures
            file_text.spec_has_bom() == starts_with_bom(text@),
            file_text.spec_text() == without_bom(text@),
    {
        let len = text.as_str().unicode_len();
        if len > 0 && text.as_str().get_char(0) == '\u{FEFF}' {
            let rest = text.as_str().substring_char(1, len);
            assert(text@.subrange(1, len as int) == text@.skip(1));
            FileText { text: rest.to_owned(), has_bom: true }
        } else {
            FileText { text, has_bom: false }
        }
    }

    /// Whether the text had a byte order mark.
    #[verifier::when_used_as_spec(spec_has_bom)]
    pub fn has_bom(&self) -> (has_bom: bool)
        ensures
            has_bom == self.spec_has_bom(),
    {
        self.has_bom
    }

    /// The text without its byte order mark.
    pub fn as_str(&self) -> (text: &str)
        ensures
            text@ == self.spec_text(),
    {
        self.text.as_str()
    }
}

/// The pools of the slots, in order.
pub open spec fn slot_pools<P: Plugin>(slots: Seq<OptionalPluginAndPool<P>>) -> Seq<
    Arc<PluginPool<P>>,
> {
    Seq::new(slots.len(), |i: int| slots[i].pool)
}

/// Whether the plugin of the pool, with the pool's configuration, may
/// answer `input` with `result`.
pub open spec fn may_format<P: Plugin>(
    pool: Arc<PluginPool<P>>,
    file_path: Seq<char>,
    input: Seq<char>,
    result: Result<Seq<char>, Seq<char>>,
) -> bool {
    exists|before: P, after: P| #[trigger]
        before.formats(&pool.spec_setup(), file_path, input, result, &after)
}

/// Whether the plugin of the pool may fail on `input` with `message`: in
/// its call, or because no instance of it can be created.
pub open spec fn may_fail<P: Plugin>(
    pool: Arc<PluginPool<P>>,
    file_path: Seq<char>,
    input: Seq<char>,
    message: Seq<char>,
) -> bool {
    may_format(pool, file_path, input, Err(message)) || P::fails_to_initialize(
        &pool.spec_setup(),
        message,
    )
}

/// Whether each text of the trail but the last is one that the plugin of
/// the pool at its position may answer with the text after it.
pub open spec fn is_chain_trail<P: Plugin>(
    pools: Seq<Arc<PluginPool<P>>>,
    file_path: Seq<char>,
    trail: Seq<Seq<char>>,
) -> bool {
    forall|i: int|
        0 <= i < trail.len() - 1 ==> may_format(
            pools[i],
            file_path,
            #[trigger] trail[i],
            Ok(trail[i + 1]),
        )
}

/// Whether `output` is what the plugins of the first `count` pools may make
/// of `input` in a row: each of them is given what the one before it
/// returned, the first one is given `input`, and `output` is what the last
/// one returned.
pub open spec fn chain_formats<P: Plugin>(
    pools: Seq<Arc<PluginPool<P>>>,
    file_path: Seq<char>,
    input: Seq<char>,
    count: nat,
    output: Seq<char>,
) -> bool {
    exists|trail: Seq<Seq<char>>|
        {
            &&& #[trigger] is_chain_trail(pools, file_path, trail)
            &&& count <= pools.len()
            &&& trail.len() == count + 1
            &&& trail[0] == input
            &&& trail.last() == output
        }
}

/// Whether the configuration of each of the pools is sound.
pub open spec fn all_sound<P: Plugin>(pools: Seq<Arc<PluginPool<P>>>) -> bool {
    forall|i: int| 0 <= i < pools.len() ==> !(#[trigger] pools[i]).is_broken()
}

/// Whether the chain went through: every pool is sound, and `output` is
/// what the plugins of all pools may make of `input` in a row.
pub open spec fn chain_succeeds<P: Plugin>(
    pools: Seq<Arc<PluginPool<P>>>,
    file_path: Seq<char>,
    input: Seq<char>,
    output: Seq<char>,
) -> bool {
    all_sound(pools) && chain_formats(pools, file_path, input, pools.len(), output)
}

/// Whether the chain ended with the failure of a plugin: the pools up to
/// that plugin's are sound, the plugins before it ran in a row on `input`,
/// and the plugin may fail on what they returned with `message`.
pub open spec fn chain_fails<P: Plugin>(
    pools: Seq<Arc<PluginPool<P>>>,
    file_path: Seq<char>,
    input: Seq<char>,
    message: Seq<char>,
) -> bool {
    exists|done: nat, mid: Seq<char>|
        {
            &&& done < pools.len()
            &&& all_sound(pools.take(done as int + 1))
            &&& #[trigger] chain_formats(pools, file_path, input, done, mid)
            &&& may_fail(pools[done as int], file_path, mid, message)
        }
}

/// Whether the chain ended at a pool whose configuration is broken: the
/// pools before it are sound and their plugins ran in a row on `input`,
/// and `count` is the number of problems that the check of that pool's
/// configuration found.
pub open spec fn chain_breaks<P: Plugin>(
    pools: Seq<Arc<PluginPool<P>>>,
    file_path: Seq<char>,
    input: Seq<char>,
    count: usize,
) -> bool {
    exists|at: nat, mid: Seq<char>|
        {
            &&& at < pools.len()
            &&& all_sound(pools.take(at as int))
            &&& pools[at as int].is_broken()
            &&& count == pools[at as int].spec_diagnostics()
            &&& P::diagnoses(&pools[at as int].spec_setup(), count)
            &&& #[trigger] chain_formats(pools, file_path, input, at, mid)
        }
}

/// What a chain of pools makes of a text: see [`chain_succeeds`],
/// [`chain_fails`] and [`chain_breaks`].
pub open spec fn chain_outcome<P: Plugin>(
    pools: Seq<Arc<PluginPool<P>>>,
    file_path: Seq<char>,
    input: Seq<char>,
    result: Result<String, FormatError>,
) -> bool {
    match result {
        Ok(formatted) => chain_succeeds(pools, file_path, input, formatted@),
        Err(FormatError::Failed(message)) => chain_fails(pools, file_path, input, message@),
        Err(FormatError::ConfigDiagnostics(count)) => chain_breaks(pools, file_path, input, count),
    }
}

/// No plugin leaves the text as it is.
pub proof fn lemma_chain_of_none<P: Plugin>(
    pools: Seq<Arc<PluginPool<P>>>,
    file_path: Seq<char>,
    input: Seq<char>,
)
    ensures
        chain_formats(pools, file_path, input, 0, input),
        forall|output: Seq<char>|
            chain_formats(pools, file_path, input, 0, output) ==> output == input,
{
    assert(is_chain_trail(pools, file_path, seq![input]));
    assert(seq![input].last() == input);
}

/// A chain that is followed by the plugin of the next pool is a chain that
/// is longer by one: the plugin is given what the chain returned.
pub proof fn lemma_chain_extends<P: Plugin>(
    pools: Seq<Arc<PluginPool<P>>>,
    file_path: Seq<char>,
    input: Seq<char>,
    count: nat,
    mid: Seq<char>,
    output: Seq<char>,
)
    requires
        count < pools.len(),
        chain_formats(pools, file_path, input, count, mid),
        may_format(pools[count as int], file_path, mid, Ok(output)),
    ensures
        chain_formats(pools, file_path, input, count + 1, output),
{
    let trail = choose|trail: Seq<Seq<char>>|
        {
            &&& #[trigger] is_chain_trail(pools, file_path, trail)
            &&& count <= pools.len()
            &&& trail.len() == count + 1
            &&& trail[0] == input
            &&& trail.last() == mid
        };
    let longer = trail.push(output);
    assert forall|i: int| 0 <= i < longer.len() - 1 implies may_format(
        pools[i],
        file_path,
        #[trigger] longer[i],
        Ok(longer[i + 1]),
    ) by {
        if i < trail.len() - 1 {
            assert(longer[i] == trail[i]);
            assert(longer[i + 1] == trail[i + 1]);
        }
    }
    assert(is_chain_trail(pools, file_path, longer));
    assert(longer.last() == output);
}

/// The last plugin of a chain of at least one is given what the chain
/// before it returned.
pub proof fn lemma_chain_ends<P: Plugin>(
    pools: Seq<Arc<PluginPool<P>>>,
    file_path: Seq<char>,
    input: Seq<char>,
    count: nat,
    output: Seq<char>,
)
    requires
        count > 0,
        chain_formats(pools, file_path, input, count, output),
    ensures
        exists|mid: Seq<char>| #[trigger]
            chain_formats(pools, file_path, input, (count - 1) as nat, mid) && may_format(
                pools[count - 1],
                file_path,
                mid,
                Ok(output),
            ),
{
    let trail = choose|trail: Seq<Seq<char>>|
        {
            &&& #[trigger] is_chain_trail(pools, file_path, trail)
            &&& count <= pools.len()
            &&& trail.len() == count + 1
            &&& trail[0] == input
            &&& trail.last() == output
        };
    let shorter = trail.drop_last();
    let mid = shorter.last();
    assert forall|i: int| 0 <= i < shorter.len() - 1 implies may_format(
        pools[i],
        file_path,
        #[trigger] shorter[i],
        Ok(shorter[i + 1]),
    ) by {
        assert(shorter[i] == trail[i]);
        assert(shorter[i + 1] == trail[i + 1]);
    }
    assert(is_chain_trail(pools, file_path, shorter));
    assert(mid == trail[count - 1]);
    assert(may_format(pools[count - 1], file_path, trail[count - 1], Ok(trail[count - 1 + 1])));
    assert(chain_formats(pools, file_path, input, (count - 1) as nat, mid));
}

/// In a chain of two plugins the second is given what the first returned,
/// and never the text that the first was given.
pub proof fn lemma_chain_of_two<P: Plugin>(
    pools: Seq<Arc<PluginPool<P>>>,
    file_path: Seq<char>,
    input: Seq<char>,
    output: Seq<char>,
)
    requires
        chain_formats(pools, file_path, input, 2, output),
    ensures
        exists|mid: Seq<char>| #[trigger]
            may_format(pools[0], file_path, input, Ok(mid)) && may_format(
                pools[1],
                file_path,
                mid,
                Ok(output),
            ),
{
    let trail = choose|trail: Seq<Seq<char>>|
        {
            &&& #[trigger] is_chain_trail(pools, file_path, trail)
            &&& 2 <= pools.len()
            &&& trail.len() == 3
            &&& trail[0] == input
            &&& trail.last() == output
        };
    assert(may_format(pools[0], file_path, trail[0], Ok(trail[0int + 1])));
    assert(may_format(pools[1], file_path, trail[1], Ok(trail[1int + 1])));
}

/// A chain whose first pool has a broken configuration ends there, with
/// the number of problems of that pool, whatever the text is: no plugin
/// runs.
pub proof fn lemma_broken_first_pool_decides<P: Plugin>(
    pools: Seq<Arc<PluginPool<P>>>,
    file_path: Seq<char>,
    input: Seq<char>,
    result: Result<String, FormatError>,
)
    requires
        pools.len() > 0,
        pools[0].is_broken(),
        chain_outcome(pools, file_path, input, result),
    ensures
        result matches Err(FormatError::ConfigDiagnostics(count)) && count
            == pools[0].spec_diagnostics(),
{
    match result {
        Ok(_) => {
            assert(!pools[0].is_broken());
        },
        Err(FormatError::Failed(message)) => {
            let (done, mid) = choose|done: nat, mid: Seq<char>|
                {
                    &&& done < pools.len()
                    &&& all_sound(pools.take(done as int + 1))
                    &&& #[trigger] chain_formats(pools, file_path, input, done, mid)
                    &&& may_fail(pools[done as int], file_path, mid, message@)
                };
            assert(pools.take(done as int + 1)[0] == pools[0]);
        },
        Err(FormatError::ConfigDiagnostics(count)) => {
            let (at, mid) = choose|at: nat, mid: Seq<char>|
                {
                    &&& at < pools.len()
                    &&& all_sound(pools.take(at as int))
                    &&& pools[at as int].is_broken()
                    &&& count == pools[at as int].spec_diagnostics()
                    &&& P::diagnoses(&pools[at as int].spec_setup(), count)
                    &&& #[trigger] chain_formats(pools, file_path, input, at, mid)
                };
            if at > 0 {
                assert(pools.take(at as int)[0] == pools[0]);
            }
        },
    }
}

/// A chain of sound pools never ends with a broken configuration.
pub proof fn lemma_sound_pools_never_break<P: Plugin>(
    pools: Seq<Arc<PluginPool<P>>>,
    file_path: Seq<char>,
    input: Seq<char>,
    count: usize,
)
    requires
        all_sound(pools),
    ensures
        !chain_breaks(pools, file_path, input, count),
{
}

/// Whether the slots are those of `before` with no instance left in them.
pub open spec fn slots_emptied<P: Plugin>(
    before: Seq<OptionalPluginAndPool<P>>,
    after: Seq<OptionalPluginAndPool<P>>,
) -> bool {
    &&& after.len() == before.len()
    &&& forall|i: int|
        0 <= i < after.len() ==> (#[trigger] after[i]).plugin is None && after[i].pool
            == before[i].pool
}

/// What is done with one slot of a chain.
#[derive(Clone, Copy, Debug, PartialEq, Eq)]
pub struct SlotPlan {
    /// The instance that the slot holds is released without a call.
    pub release_unused: bool,
    /// The chain ends here with this many problems of a configuration.
    pub report: Option<usize>,
    /// The plugin of the slot is called.
    pub format: bool,
}

/// What is done after the call of a plugin.
#[derive(Debug, PartialEq, Eq)]
pub struct CallPlan {
    /// The instance is released to its pool.
    pub release: bool,
    /// After the release: the text that the chain goes on with, or the
    /// failure that ends it.
    pub outcome: Result<String, String>,
}

/// What is done with a slot: `ended` says whether the chain has ended
/// before the slot, `diagnostics` is the number of problems of the
/// configuration of the slot's pool, and `holds_instance` says whether the
/// slot holds an instance.
///
/// Once the chain has ended, and at a pool whose configuration is broken,
/// no plugin is called, and an instance that the slot holds goes back to
/// its pool unused. The first slot with a broken configuration ends the
/// chain with the number of its problems.
pub open spec fn slot_plan(ended: bool, diagnostics: usize, holds_instance: bool) -> SlotPlan {
    if ended || diagnostics > 0 {
        SlotPlan {
            release_unused: holds_instance,
            report: if ended {
                None
            } else {
                Some(diagnostics)
            },
            format: false,
        }
    } else {
        SlotPlan { release_unused: false, report: None, format: true }
    }
}

/// Decides what is done with a slot. See [`slot_plan`].
pub fn plan_slot(ended: bool, diagnostics: usize, holds_instance: bool) -> (plan: SlotPlan)
    ensures
        plan == slot_plan(ended, diagnostics, holds_instance),
{
    if ended || diagnostics > 0 {
        SlotPlan {
            release_unused: holds_instance,
            report: if ended {
                None
            } else {
                Some(diagnostics)
            },
            format: false,
        }
    } else {
        SlotPlan { release_unused: false, report: None, format: true }
    }
}

/// Decides what is done after the call of a plugin: the instance is
/// released whether the call failed or not, and only then the result is
/// looked at.
pub fn plan_after_call(result: Result<String, String>) -> (plan: CallPlan)
    ensures
        plan.release,
        plan.outcome == result,
{
    CallPlan { release: true, outcome: result }
}

/// Takes a text through the plugins of the slots, in order.
///
/// Each plugin is given what the plugin before it returned, and is called
/// with the configuration of its pool. For each slot [`plan_slot`] decides
/// what is done: where the plugin is called, the instance that the slot
/// holds is used, or else one is checked out from the slot's pool, and
/// after the call [`plan_after_call`] has the instance released to the
/// pool, whether the call failed or not. The first failure ends the chain,
/// and so does the first pool whose configuration is broken.
pub fn format_with_plugins<P: Plugin>(
    plugins: &mut Vec<OptionalPluginAndPool<P>>,
    file_path: &str,
    file_text: &str,
) -> (result: Result<String, FormatError>)
    ensures
        slots_emptied(old(plugins)@, final(plugins)@),
        chain_outcome(slot_pools(old(plugins)@), file_path@, file_text@, result),
{
    let ghost pools = slot_pools(old(plugins)@);
    let mut text: String = file_text.to_owned();
    let mut ended: Option<FormatError> = None;
    proof {
        lemma_chain_of_none(pools, file_path@, file_text@);
    }
    let count = plugins.len();
    let mut used: Vec<OptionalPluginAndPool<P>> = Vec::new();
    let mut i: usize = 0;
    while i < count
        invariant
            i <= count,
            count == old(plugins)@.len(),
            pools == slot_pools(old(plugins)@),
            plugins@.len() == count - i,
            forall|j: int| 0 <= j < plugins@.len() ==> plugins@[j] == old(plugins)@[i + j],
            slots_emptied(old(plugins)@.take(i as int), used@),
            match ended {
                None => all_sound(pools.take(i as int)) && chain_formats(
                    pools,
                    file_path@,
                    file_text@,
                    i as nat,
                    text@,
                ),
                Some(FormatError::Failed(message)) => chain_fails(
                    pools,
                    file_path@,
                    file_text@,
                    message@,
                ),
                Some(FormatError::ConfigDiagnostics(problems)) => chain_breaks(
                    pools,
                    file_path@,
                    file_text@,
                    problems,
                ),
            },
        decreases count - i,
    {
        let slot = plugins.remove(0);
        let pool = slot.pool;
        let held = slot.plugin;
        assert(pool == pools[i as int]);
        let plan = plan_slot(ended.is_some(), pool.diagnostics(), held.is_some());
        let mut usable: Option<P> = None;
        match held {
            Some(plugin) => {
                if plan.release_unused {
                    pool.release(plugin);
                } else {
                    usable = Some(plugin);
                }
            },
            None => {},
        }
        match plan.report {
            Some(problems) => {
                assert(chain_breaks(pools, file_path@, file_text@, problems));
                ended = Some(FormatError::ConfigDiagnostics(problems));
            },
            None => {},
        }
        if plan.format {
            let taken = match usable {
                Some(plugin) => Ok(TakePluginResult::Success(plugin)),
                None => pool.take_or_create_checking_config_diagnostics(),
            };
            proof {
                assert forall|j: int| 0 <= j < i + 1 implies !(#[trigger] pools.take(
                    i + 1,
                )[j]).is_broken() by {
                    if j < i {
                        assert(pools.take(i as int)[j] == pools[j]);
                    }
                }
            }
            match taken {
                Err(message) => {
                    assert(may_fail(pool, file_path@, text@, message@));
                    assert(chain_fails(pools, file_path@, file_text@, message@));
                    ended = Some(FormatError::Failed(message));
                },
                Ok(TakePluginResult::HadDiagnostics(_)) => {
                    assert(false);
                },
                Ok(TakePluginResult::Success(mut plugin)) => {
                    let ghost before = plugin;
                    let ghost input = text@;
                    let result = pool.format_measuring_time(&mut plugin, file_path, text.as_str());
                    proof {
                        assert(before.formats(
                            &pool.spec_setup(),
                            file_path@,
                            input,
                            text_result(result),
                            &plugin,
                        ));
                        assert(may_format(pool, file_path@, input, text_result(result)));
                    }
                    let after = plan_after_call(result);
                    if after.release {
                        pool.release(plugin);
                    }
                    match after.outcome {
                        Ok(formatted) => {
                            proof {
                                lemma_chain_extends(
                                    pools,
                                    file_path@,
                                    file_text@,
                                    i as nat,
                                    input,
                                    formatted@,
                                );
                            }
                            text = formatted;
                        },
                        Err(message) => {
                            assert(may_fail(pool, file_path@, input, message@));
                            assert(chain_fails(pools, file_path@, file_text@, message@));
                            ended = Some(FormatError::Failed(message));
                        },
                    }
                },
            }
        }
        used.push(OptionalPluginAndPool { plugin: None, pool });
        proof {
            assert forall|j: int| 0 <= j < used@.len() implies (#[trigger] used@[j]).plugin is None
                && used@[j].pool == old(plugins)@.take(i + 1)[j].pool by {
                if j < i {
                    assert(old(plugins)@.take(i as int)[j] == old(plugins)@[j]);
                }
            }
        }
        i += 1;
    }
    std::mem::swap(plugins, &mut used);
    assert(old(plugins)@.take(count as int) == old(plugins)@);
    assert(pools.take(count as int) == pools);
    match ended {
        Some(error) => Err(error),
        None => Ok(text),
    }
}

/// Formats a text as the file `file_name` is to be formatted: through the
/// plugins that the registry resolves for that name, in order, each with an
/// instance that is checked out for its call and released after it. See
/// [`chain_outcome`].
///
/// A file that no plugin applies to comes back as it is.
pub fn format_with_plugin_pools<P: Plugin>(
    file_name: &str,
    file_text: &str,
    plugin_pools: &PluginPools<P>,
) -> (result: Result<String, FormatError>)
    ensures
        chain_outcome(
            pools_of_chain(
                plugin_pools.spec_pools(),
                resolve_chain(plugin_pools@, file_name@),
            ),
            file_name@,
            file_text@,
            result,
        ),
        resolve_chain(plugin_pools@, file_name@).len() == 0 ==> (result matches Ok(formatted)
            && formatted@ == file_text@),
{
    let plugin_names = plugin_pools.get_plugin_names_from_file_name(file_name);
    let pools = match plugin_pools.get_pools(&plugin_names) {
        Some(pools) => pools,
        None => unreached(),
    };
    let ghost chain = pools@;
    let mut plugins: Vec<OptionalPluginAndPool<P>> = Vec::new();
    let mut pools = pools;
    while pools.len() > 0
        invariant
            plugins@.len() + pools@.len() == chain.len(),
            forall|i: int| 0 <= i < plugins@.len() ==> (#[trigger] plugins@[i]).pool == chain[i],
            forall|i: int|
                0 <= i < pools@.len() ==> (#[trigger] pools@[i]) == chain[plugins@.len() + i],
        decreases pools.len(),
    {
        let pool = pools.remove(0);
        plugins.push(OptionalPluginAndPool::from_pool(pool));
    }
    assert(slot_pools(plugins@) =~= chain);
    proof {
        lemma_chain_of_none(chain, file_name@, file_text@);
    }
    format_with_plugins(&mut plugins, file_name, file_text)
}

/// What [`format_file_text`] does with a text of a file, given what the
/// record said of it: `before` and `after` are the slots, `result` is what
/// comes back.
///
/// An unchanged file is skipped and leaves the slots as they are. Any other
/// text goes through the plugins of the slots, which leaves them empty, and
/// what the chain returned is what the handler is called with: the file is
/// formatted if the handler accepts it, and fails with the message of the
/// plugin or of the handler that failed.
pub open spec fn text_outcome<P: Plugin, E: Environment, F: FormatHandler<E>>(
    handler: &F,
    file_path: Seq<char>,
    file_text: Seq<char>,
    had_bom: bool,
    unchanged: bool,
    before: Seq<OptionalPluginAndPool<P>>,
    after: Seq<OptionalPluginAndPool<P>>,
    result: Result<FileOutcome, FormatError>,
) -> bool {
    if unchanged {
        result matches Ok(FileOutcome::Skipped) && after == before
    } else {
        &&& slots_emptied(before, after)
        &&& match result {
            Ok(FileOutcome::Skipped) => false,
            Ok(FileOutcome::Formatted) => exists|formatted: Seq<char>| #[trigger]
                chain_succeeds(slot_pools(before), file_path, file_text, formatted)
                    && handler.handles(file_path, file_text, formatted, had_bom, Ok(())),
            Err(FormatError::Failed(message)) => {
                ||| chain_fails(slot_pools(before), file_path, file_text, message@)
                ||| exists|formatted: Seq<char>| #[trigger]
                    chain_succeeds(slot_pools(before), file_path, file_text, formatted)
                        && handler.handles(
                        file_path,
                        file_text,
                        formatted,
                        had_bom,
                        Err(message@),
                    )
            },
            Err(FormatError::ConfigDiagnostics(count)) => chain_breaks(
                slot_pools(before),
                file_path,
                file_text,
                count,
            ),
        }
    }
}

/// What [`run_for_file_path`] does with a file: `before` and `after` are
/// the slots, `result` is what comes back.
///
/// A file that the environment cannot read fails with the environment's
/// message and leaves the slots as they are. The text of any other file is
/// dealt with as [`text_outcome`] says, without its byte order mark, and as
/// unchanged exactly if there is a record and the record says so of that
/// text.
pub open spec fn file_outcome<P: Plugin, E: Environment, C: IncrementalFile, F: FormatHandler<E>>(
    environment: &E,
    incremental_file: Option<&C>,
    handler: &F,
    file_path: Seq<char>,
    before: Seq<OptionalPluginAndPool<P>>,
    after: Seq<OptionalPluginAndPool<P>>,
    result: Result<FileOutcome, FormatError>,
) -> bool {
    ||| result matches Err(FormatError::Failed(message)) && environment.reads(
        file_path,
        Err(message@),
    ) && after == before
    ||| exists|read: Seq<char>, unchanged: bool|
        {
            &&& environment.reads(file_path, Ok(read))
            &&& match incremental_file {
                Some(record) => record.says_same(file_path, without_bom(read), unchanged),
                None => !unchanged,
            }
            &&& #[trigger] text_outcome::<P, E, F>(
                handler,
                file_path,
                without_bom(read),
                starts_with_bom(read),
                unchanged,
                before,
                after,
                result,
            )
        }
}

/// Formats a file whose text has been read, once the record of earlier
/// runs has been asked about it: `unchanged` is what the record said, and
/// is `false` where there is no record.
///
/// An unchanged file is skipped: no plugin runs, no slot is touched, and
/// the file is neither reported to the handler nor counted as failed.
/// Every other file goes through the plugins of the slots as
/// [`format_with_plugins`] says, which leaves no instance in a slot; then
/// the record is brought up to date and the handler is called with the
/// result.
pub fn format_file_text<P: Plugin, E: Environment, C: IncrementalFile, F: FormatHandler<E>>(
    environment: &E,
    incremental_file: Option<&C>,
    unchanged: bool,
    plugins: &mut Vec<OptionalPluginAndPool<P>>,
    file_path: &str,
    file_text: &FileText,
    handler: &F,
) -> (result: Result<FileOutcome, FormatError>)
    ensures
        text_outcome::<P, E, F>(
            handler,
            file_path@,
            file_text.spec_text(),
            file_text.spec_has_bom(),
            unchanged,
            old(plugins)@,
            final(plugins)@,
            result,
        ),
{
    if unchanged {
        let message = "No change: ".to_owned().concat(file_path);
        environment.log_verbose(message.as_str());
        return Ok(FileOutcome::Skipped);
    }
    let start_instant = now();
    let formatted_text = match format_with_plugins(plugins, file_path, file_text.as_str()) {
        Ok(formatted_text) => formatted_text,
        Err(error) => {
            return Err(error);
        },
    };

    match incremental_file {
        Some(incremental_file) => incremental_file.update_file(file_path, formatted_text.as_str()),
        None => {},
    }

    let ghost formatted = formatted_text@;
    assert(chain_succeeds(
        slot_pools(old(plugins)@),
        file_path@,
        file_text.spec_text(),
        formatted,
    ));
    match handler.handle(
        file_path,
        file_text.as_str(),
        formatted_text,
        file_text.has_bom(),
        start_instant,
        environment,
    ) {
        Ok(()) => Ok(FileOutcome::Formatted),
        Err(message) => Err(FormatError::Failed(message)),
    }
}

/// Formats one file for a worker.
///
/// The file is read, and the record of earlier runs, where one is given, is
/// asked whether the file has changed; [`format_file_text`] does the rest.
/// A file that cannot be read fails without a slot being touched. What
/// fails (reading, a plugin, the handler) is the failure of this file
/// alone, but for a broken configuration.
pub fn run_for_file_path<P: Plugin, E: Environment, C: IncrementalFile, F: FormatHandler<E>>(
    environment: &E,
    incremental_file: Option<&C>,
    plugins: &mut Vec<OptionalPluginAndPool<P>>,
    file_path: &str,
    handler: &F,
) -> (result: Result<FileOutcome, FormatError>)
    ensures
        file_outcome(
            environment,
            incremental_file,
            handler,
            file_path@,
            old(plugins)@,
            final(plugins)@,
            result,
        ),
        match result {
            Ok(FileOutcome::Skipped) => incremental_file is Some && final(plugins)@ == old(plugins)@,
            Ok(FileOutcome::Formatted) => slots_emptied(old(plugins)@, final(plugins)@),
            Err(FormatError::ConfigDiagnostics(count)) => count > 0 && old(plugins)@.len() > 0
                && slots_emptied(old(plugins)@, final(plugins)@),
            Err(FormatError::Failed(_)) => slots_emptied(old(plugins)@, final(plugins)@) || final(plugins)@ == old(plugins)@,
        },
{
    let read = match environment.read_file(file_path) {
        Ok(text) => text,
        Err(message) => {
            return Err(FormatError::Failed(message));
        },
    };
    let ghost read_text = read@;
    let file_text = FileText::new(read);
    let unchanged = match incremental_file {
        Some(incremental_file) => incremental_file.is_file_same(file_path, file_text.as_str()),
        None => false,
    };
    let result = format_file_text(
        environment,
        incremental_file,
        unchanged,
        plugins,
        file_path,
        &file_text,
        handler,
    );
    assert(environment.reads(file_path@, Ok(read_text)) && text_outcome::<P, E, F>(
        handler,
        file_path@,
        without_bom(read_text),
        starts_with_bom(read_text),
        unchanged,
        old(plugins)@,
        plugins@,
        result,
    ));
    result
}

} // verus!

//! What happens when a client asks for a rendering: the checks, the choice
//! between one process and several, and the command line of each.
use crate::decimal::{decimal, i64_value, parse_usize, u64_text, usize_value};
use crate::frame_partition::{
    Distribution, Partition, compute_partitions, distribution_named, share_of, splits,
};
use crate::frame_range::{AnimationSettings, RangeSource, range_source, resolve_range};
use crate::text::{
    contains_text, lemma_texts_push, same_text, texts, words, words_of, words_of_joined,
};
use vstd::prelude::*;
use vstd::string::*;

verus! {

/// A request that comes while Blender runs.
pub open spec fn already_running() -> Seq<char> {
    "Blender is already running. Cannot run duplicate task"@
}

/// A request that comes before a scene.
pub open spec fn no_scene() -> Seq<char> {
    "Blend file not exist. Please upload it first"@
}

/// A request that says nothing.
pub open spec fn nothing_said() -> Seq<char> {
    "Input data field cannot be empty"@
}

/// A request that lacks the settings.
pub open spec fn no_settings() -> Seq<char> {
    "Non valid schema. Enter your blend command with a key `data_sync`"@
}

/// The message if there is reason for it.
pub open spec fn complaint(reason: bool, message: Seq<char>) -> Seq<Seq<char>> {
    if reason {
        seq![message]
    } else {
        Seq::empty()
    }
}

/// The request has settings: it is an object with the member `data_sync`.
/// `keys` are the keys of the object; none where the request is no object.
pub open spec fn has_settings(keys: Option<Vec<String>>) -> bool {
    keys matches Some(keys) && texts(keys@).contains("data_sync"@)
}

/// All that is wrong with a request, in the order in which the client is told.
pub open spec fn complaints(
    is_rendering: Seq<char>,
    file_present: Seq<char>,
    keys: Option<Vec<String>>,
) -> Seq<Seq<char>> {
    complaint(is_rendering == "true"@, already_running()) + complaint(
        file_present == "false"@,
        no_scene(),
    ) + complaint(keys is None || keys->0@.len() == 0, nothing_said()) + complaint(
        !has_settings(keys),
        no_settings(),
    )
}

/// Tests whether the request has settings.
pub fn has_data_sync(keys: &Option<Vec<String>>) -> (res: bool)
    ensures
        res == has_settings(*keys),
{
    match keys {
        None => false,
        Some(keys) => contains_text(keys, "data_sync"),
    }
}

fn complain(list: &mut Vec<String>, reason: bool, message: &str)
    ensures
        texts(final(list)@) == texts(old(list)@) + complaint(reason, message@),
{
    if reason {
        let text = message.to_owned();
        proof {
            lemma_texts_push(list@, text);
        }
        list.push(text);
        assert(texts(list@) =~= texts(old(list)@) + seq![message@]);
    } else {
        assert(texts(list@) =~= texts(old(list)@) + Seq::<Seq<char>>::empty());
    }
}

/// Checks a request: `is_rendering` and `file_present` are stored in the
/// database, `keys` are those of the request (none where it is no object).
pub fn request_complaints(
    is_rendering: &str,
    file_present: &str,
    keys: &Option<Vec<String>>,
) -> (res: Vec<String>)
    ensures
        texts(res@) == complaints(is_rendering@, file_present@, *keys),
{
    let empty = match keys {
        None => true,
        Some(keys) => keys.len() == 0,
    };
    let mut res: Vec<String> = Vec::new();
    assert(texts(res@) =~= Seq::<Seq<char>>::empty());
    complain(
        &mut res,
        same_text(is_rendering, "true"),
        "Blender is already running. Cannot run duplicate task",
    );
    complain(
        &mut res,
        same_text(file_present, "false"),
        "Blend file not exist. Please upload it first",
    );
    complain(&mut res, empty, "Input data field cannot be empty");
    complain(
        &mut res,
        !has_data_sync(keys),
        "Non valid schema. Enter your blend command with a key `data_sync`",
    );
    assert(texts(res@) =~= complaints(is_rendering@, file_present@, *keys));
    res
}

/// A rendering starts: the request has settings, there is a scene, and
/// Blender does not run.
pub open spec fn starts(
    is_rendering: Seq<char>,
    file_present: Seq<char>,
    keys: Option<Vec<String>>,
) -> bool {
    has_settings(keys) && file_present == "true"@ && is_rendering == "false"@
}

/// Decides whether a rendering starts.
pub fn may_start(is_rendering: &str, file_present: &str, keys: &Option<Vec<String>>) -> (res: bool)
    ensures
        res == starts(is_rendering@, file_present@, *keys),
{
    has_data_sync(keys) && same_text(file_present, "true") && same_text(is_rendering, "false")
}

/// The settings for several processes, as they are stored.
#[derive(Debug, PartialEq)]
pub struct ParallelSettings {
    pub enabled: String,
    pub process_count: String,
    pub gpu_count: String,
}

/// A count in the settings; one where there is none.
pub open spec fn count_setting(s: Seq<char>) -> usize {
    match usize_value(s) {
        Some(count) => count,
        None => 1,
    }
}

/// The number of processes that is wanted: as many as were asked for, but at
/// most one for each GPU. None where one process is enough: several are not
/// enabled, or only one was asked for, or there is only one GPU.
pub open spec fn wanted(settings: ParallelSettings) -> Option<usize> {
    let asked = count_setting(settings.process_count@);
    let gpus = count_setting(settings.gpu_count@);
    if settings.enabled@ == "true"@ && asked > 1 && gpus > 1 {
        Some(if asked < gpus {
            asked
        } else {
            gpus
        })
    } else {
        None
    }
}

/// Decides how many processes are wanted.
pub fn wanted_processes(settings: &ParallelSettings) -> (res: Option<usize>)
    ensures
        res == wanted(*settings),
{
    let asked: usize = parse_usize(settings.process_count.as_str()).unwrap_or(1);
    let gpus: usize = parse_usize(settings.gpu_count.as_str()).unwrap_or(1);
    if same_text(settings.enabled.as_str(), "true") && asked > 1 && gpus > 1 {
        if asked < gpus {
            Some(asked)
        } else {
            Some(gpus)
        }
    } else {
        None
    }
}

/// The stored settings that decide how a scene is rendered.
#[derive(Debug, PartialEq)]
pub struct RenderSettings {
    pub parallel: ParallelSettings,
    pub distribution: String,
    pub animation: AnimationSettings,
    pub anime_query: String,
    pub engine_query: String,
}

/// What is to be done to render the scene.
#[derive(Debug, PartialEq)]
pub enum RenderStep {
    /// Ask the scene for its frame range.
    Probe,
    /// Let one process render everything, with this query.
    Single(String),
    /// Let several processes share the frames.
    Parallel(Vec<Partition>),
}

/// Several processes share the frames: they are wanted, and there is a range
/// of more than one frame.
pub open spec fn is_shared(wanted: Option<usize>, range: Option<(i64, i64)>) -> bool {
    match (wanted, range) {
        (Some(_), Some((start, end))) => end - start + 1 > 1,
        _ => false,
    }
}

/// The length of the range can be computed.
pub open spec fn is_countable(range: (i64, i64)) -> bool {
    &&& i64::MIN <= range.1 - range.0
    &&& range.1 - range.0 + 1 <= i64::MAX
    &&& range.1 - range.0 + 1 <= usize::MAX
}

/// The query of a single process.
pub open spec fn single_query(settings: RenderSettings) -> Seq<char> {
    settings.anime_query@ + " "@ + settings.engine_query@
}

/// `parts` is the split of the range over the wanted processes.
pub open spec fn shares_range(
    settings: RenderSettings,
    range: (i64, i64),
    parts: Seq<Partition>,
) -> bool {
    splits(
        parts,
        range.0 as int,
        range.1 as int,
        wanted(settings.parallel)->0 as int,
        distribution_named(settings.distribution@),
    )
}

/// The step is the one for a known frame range (or for none).
pub open spec fn fits_range(
    settings: RenderSettings,
    range: Option<(i64, i64)>,
    step: RenderStep,
) -> bool {
    match step {
        RenderStep::Probe => false,
        RenderStep::Single(query) => !is_shared(wanted(settings.parallel), range) && query@
            == single_query(settings),
        RenderStep::Parallel(parts) => is_shared(wanted(settings.parallel), range) && shares_range(
            settings,
            range->0,
            parts@,
        ),
    }
}

/// Chooses between one process and several, once the frame range is known;
/// there is none for a single frame, or where the scene did not tell it.
pub fn choose_render(settings: &RenderSettings, range: Option<(i64, i64)>) -> (res: RenderStep)
    requires
        wanted(settings.parallel) is Some && range is Some ==> is_countable(range->0),
    ensures
        fits_range(*settings, range, res),
{
    match (wanted_processes(&settings.parallel), range) {
        (Some(count), Some((start, end))) => {
            let frames: i64 = end - start + 1;
            if frames > 1 {
                let distribution = Distribution::from_str(settings.distribution.as_str());
                RenderStep::Parallel(compute_partitions(start, end, count, distribution))
            } else {
                RenderStep::Single(
                    blender_query(settings.anime_query.as_str(), settings.engine_query.as_str()),
                )
            }
        },
        _ => RenderStep::Single(
            blender_query(settings.anime_query.as_str(), settings.engine_query.as_str()),
        ),
    }
}

/// The step is the one that the settings alone lead to: the scene is asked
/// for its frame range only if several processes are wanted and the settings
/// have no range of their own.
pub open spec fn planned(settings: RenderSettings, step: RenderStep) -> bool {
    match (wanted(settings.parallel), range_source(settings.animation)) {
        (Some(_), RangeSource::Scene) => step is Probe,
        (Some(_), RangeSource::Chosen(start, end)) => fits_range(
            settings,
            Some((start, end)),
            step,
        ),
        _ => fits_range(settings, None, step),
    }
}

/// Decides how a scene is rendered, as far as the settings tell.
pub fn plan_render(settings: &RenderSettings) -> (res: RenderStep)
    requires
        wanted(settings.parallel) is Some ==> (range_source(settings.animation)
            matches RangeSource::Chosen(start, end) ==> is_countable((start, end))),
    ensures
        planned(*settings, res),
{
    match wanted_processes(&settings.parallel) {
        None => choose_render(settings, None),
        Some(_) => match resolve_range(&settings.animation) {
            RangeSource::SingleFrame => choose_render(settings, None),
            RangeSource::Chosen(start, end) => choose_render(settings, Some((start, end))),
            RangeSource::Scene => RenderStep::Probe,
        },
    }
}

/// One process renders everything when several are not enabled, when only one
/// was asked for, when there is only one GPU, and when a single frame is
/// rendered, whatever the other settings are.
pub proof fn one_process_where_one_is_enough(settings: RenderSettings, step: RenderStep)
    requires
        planned(settings, step),
        settings.parallel.enabled@ != "true"@ || count_setting(settings.parallel.process_count@)
            <= 1 || count_setting(settings.parallel.gpu_count@) <= 1 || range_source(
            settings.animation,
        ) == RangeSource::SingleFrame,
    ensures
        step matches RenderStep::Single(query) && query@ == single_query(settings),
{
}

/// Several processes are at least two, and at most as many as were asked for,
/// as there are GPUs, and as there are frames: exactly the least of the three.
pub proof fn shared_render_is_pinned(
    settings: ParallelSettings,
    start: i64,
    end: i64,
    distribution: Distribution,
    parts: Seq<Partition>,
)
    requires
        is_shared(wanted(settings), Some((start, end))),
        splits(parts, start as int, end as int, wanted(settings)->0 as int, distribution),
    ensures
        2 <= parts.len(),
        parts.len() <= count_setting(settings.process_count@),
        parts.len() <= count_setting(settings.gpu_count@),
        parts.len() <= end - start + 1,
        parts.len() == count_setting(settings.process_count@) || parts.len() == count_setting(
            settings.gpu_count@,
        ) || parts.len() == end - start + 1,
        forall|i: int| 0 <= i < parts.len() ==> (#[trigger] parts[i]).index == i,
{
}

/// The arguments that every Blender process begins with.
pub open spec fn common_args(blend_path: Seq<char>) -> Seq<Seq<char>> {
    seq![
        "-b"@,
        blend_path,
        "-o"@,
        "./output/"@,
        "-P"@,
        "cycles_optix_denoise_logic.py"@,
    ]
}

fn begin_args(blend_path: &str) -> (res: Vec<String>)
    ensures
        texts(res@) == common_args(blend_path@),
{
    let res = vec![
        "-b".to_owned(),
        blend_path.to_owned(),
        "-o".to_owned(),
        "./output/".to_owned(),
        "-P".to_owned(),
        "cycles_optix_denoise_logic.py".to_owned(),
    ];
    assert(texts(res@) =~= common_args(blend_path@));
    res
}

/// The query of a single process: what was asked of the animation, then what
/// was asked of the engine.
pub fn blender_query(anime_query: &str, engine_query: &str) -> (res: String)
    ensures
        res@ == anime_query@ + " "@ + engine_query@,
{
    anime_query.to_owned().concat(" ").concat(engine_query)
}

/// The arguments of a single process.
pub fn single_args(blend_path: &str, blender_query: &str) -> (res: Vec<String>)
    ensures
        texts(res@) == common_args(blend_path@) + words_of(blender_query@),
{
    let mut res = begin_args(blend_path);
    let mut rest = words(blender_query);
    let ghost head = res@;
    let ghost tail = rest@;
    res.append(&mut rest);
    assert(texts(res@) =~= texts(head) + texts(tail));
    res
}

/// The arguments of one process of several.
pub fn worker_args(blend_path: &str, partition: &Partition, engine_query: &str) -> (res: Vec<
    String,
>)
    ensures
        texts(res@) == common_args(blend_path@) + texts(partition.frame_args@) + words_of(
            engine_query@,
        ),
{
    let mut res = begin_args(blend_path);
    let ghost head = res@;
    let mut i: usize = 0;
    assert(texts(res@) =~= texts(head) + texts(partition.frame_args@.take(0)));
    while i < partition.frame_args.len()
        invariant
            i <= partition.frame_args@.len(),
            texts(res@) == texts(head) + texts(partition.frame_args@.take(i as int)),
        decreases partition.frame_args@.len() - i,
    {
        let arg = partition.frame_args[i].clone();
        proof {
            lemma_texts_push(res@, arg);
            lemma_texts_push(partition.frame_args@.take(i as int), arg);
            assert(partition.frame_args@.take(i + 1) =~= partition.frame_args@.take(i as int).push(
                partition.frame_args@[i as int],
            ));
        }
        res.push(arg);
        i = i + 1;
    }
    assert(partition.frame_args@.take(i as int) == partition.frame_args@);
    let ghost middle = res@;
    let mut rest = words(engine_query);
    let ghost tail = rest@;
    res.append(&mut rest);
    assert(texts(res@) =~= texts(middle) + texts(tail));
    res
}

/// The value of `CUDA_VISIBLE_DEVICES` for a process: its own GPU alone.
pub fn visible_device(partition: &Partition) -> (res: String)
    ensures
        res@ == decimal(partition.index as int),
{
    u64_text(partition.index as u64)
}

/// One process of several is called like a single one, with its own frames in
/// the place of what was asked of the animation.
pub proof fn workers_mirror_the_single_process(
    blend_path: Seq<char>,
    anime_query: Seq<char>,
    engine_query: Seq<char>,
)
    ensures
        common_args(blend_path) + words_of(anime_query + " "@ + engine_query) == common_args(
            blend_path,
        ) + words_of(anime_query) + words_of(engine_query),
{
    reveal_strlit(" ");
    assert(" "@ =~= seq![' ']);
    words_of_joined(anime_query, engine_query);
    assert(common_args(blend_path) + (words_of(anime_query) + words_of(engine_query))
        =~= common_args(blend_path) + words_of(anime_query) + words_of(engine_query));
}

/// A request that is complained of starts nothing, whichever the complaint.
pub proof fn refused_request_starts_nothing(
    is_rendering: Seq<char>,
    file_present: Seq<char>,
    keys: Option<Vec<String>>,
)
    requires
        complaints(is_rendering, file_present, keys).len() > 0,
    ensures
        !starts(is_rendering, file_present, keys),
{
    reveal_strlit("true");
    reveal_strlit("false");
    assert("true"@.len() == 4 && "false"@.len() == 5);
}

/// The least of three numbers.
pub open spec fn least(a: int, b: int, c: int) -> int {
    if a <= b && a <= c {
        a
    } else if b <= c {
        b
    } else {
        c
    }
}

/// Where several processes are enabled, more than one was asked for and there
/// is more than one GPU, every range of more than one frame, chosen by the
/// client or announced by the scene, is shared: by as many processes as were
/// asked for, as there are GPUs and as there are frames, whichever is least.
pub proof fn every_range_is_shared_where_several_are_wanted(
    settings: RenderSettings,
    asked: usize,
    gpus: usize,
    start: i64,
    end: i64,
    step: RenderStep,
)
    requires
        settings.parallel.enabled@ == "true"@,
        usize_value(settings.parallel.process_count@) == Some(asked),
        usize_value(settings.parallel.gpu_count@) == Some(gpus),
        asked > 1,
        gpus > 1,
        start < end,
        fits_range(settings, Some((start, end)), step) || (planned(settings, step)
            && settings.animation.single_frame_status@ != "true"@
            && settings.animation.range_status@ == "true"@ && i64_value(
            settings.animation.start_frame@,
        ) == Some(start) && i64_value(settings.animation.end_frame@) == Some(end)),
    ensures
        step matches RenderStep::Parallel(parts) ==> {
            &&& parts@.len() == least(asked as int, gpus as int, end - start + 1)
            &&& settings.distribution@ == "interleave"@ ==> splits(
                parts@,
                start as int,
                end as int,
                parts@.len() as int,
                Distribution::Interleave,
            )
            &&& settings.distribution@ != "interleave"@ ==> splits(
                parts@,
                start as int,
                end as int,
                parts@.len() as int,
                Distribution::Chunks,
            )
        },
        step is Parallel,
{
    if let RenderStep::Parallel(parts) = step {
        let dist = distribution_named(settings.distribution@);
        let count = wanted(settings.parallel)->0 as int;
        assert(splits(parts@, start as int, end as int, count, dist));
        assert forall|i: int| 0 <= i < parts@.len() implies share_of(
            start as int,
            end as int,
            count,
            dist,
            i,
        ) == #[trigger] share_of(start as int, end as int, parts@.len() as int, dist, i) by {
        }
        assert(splits(parts@, start as int, end as int, parts@.len() as int, dist));
    }
}

/// A range of one frame, or one that ends before it begins, or none at all, is
/// not shared: one process renders what the two queries say, with a space
/// between them.
pub proof fn one_frame_is_not_shared(
    settings: RenderSettings,
    range: Option<(i64, i64)>,
    step: RenderStep,
)
    requires
        fits_range(settings, range, step),
        range matches Some((start, end)) ==> end <= start,
    ensures
        step matches RenderStep::Single(query) && query@ == settings.anime_query@ + " "@
            + settings.engine_query@,
{
}

/// A range that the client chose is not shared either if it has one frame, or
/// ends before it begins.
pub proof fn one_chosen_frame_is_not_shared(
    settings: RenderSettings,
    start: i64,
    end: i64,
    step: RenderStep,
)
    requires
        planned(settings, step),
        settings.animation.range_status@ == "true"@,
        i64_value(settings.animation.start_frame@) == Some(start),
        i64_value(settings.animation.end_frame@) == Some(end),
        end <= start,
    ensures
        step matches RenderStep::Single(query) && query@ == settings.anime_query@ + " "@
            + settings.engine_query@,
{
}

/// The scene is asked for its range exactly if several processes are wanted
/// and the client chose neither a single frame nor a range.
pub proof fn scene_is_asked_only_where_it_decides(settings: RenderSettings, step: RenderStep)
    requires
        planned(settings, step),
    ensures
        step is Probe <==> wanted(settings.parallel) is Some
            && settings.animation.single_frame_status@ != "true"@
            && settings.animation.range_status@ != "true"@,
        fits_range(settings, None, step) ==> step is Single,
{
}

/// Several processes are wanted exactly if they are enabled and both counts
/// are above one: then as many as the lesser count says. A count that is no
/// number means one.
pub proof fn lesser_count_is_wanted(settings: ParallelSettings)
    ensures
        ({
            let asked = match usize_value(settings.process_count@) {
                Some(n) => n as int,
                None => 1,
            };
            let gpus = match usize_value(settings.gpu_count@) {
                Some(n) => n as int,
                None => 1,
            };
            match wanted(settings) {
                Some(n) => {
                    &&& settings.enabled@ == "true"@
                    &&& 1 < n <= asked && n <= gpus
                    &&& n == asked || n == gpus
                },
                None => settings.enabled@ != "true"@ || asked <= 1 || gpus <= 1,
            }
        }),
{
}

/// Each complaint is made exactly if there is reason for it: Blender runs,
/// there is no scene, the request is no object or an empty one, it lacks the
/// settings. Nothing else is complained of, and nothing twice.
pub proof fn complaints_have_reasons(
    is_rendering: Seq<char>,
    file_present: Seq<char>,
    keys: Option<Vec<String>>,
)
    ensures
        ({
            let said = complaints(is_rendering, file_present, keys);
            let running = is_rendering == "true"@;
            let missing = file_present == "false"@;
            let empty = keys is None || keys->0@.len() == 0;
            let bare = keys is None || forall|i: int|
                0 <= i < keys->0@.len() ==> (#[trigger] keys->0@[i])@ != "data_sync"@;
            let a = if running {
                seq!["Blender is already running. Cannot run duplicate task"@]
            } else {
                Seq::empty()
            };
            let b = if missing {
                a.push("Blend file not exist. Please upload it first"@)
            } else {
                a
            };
            let c = if empty {
                b.push("Input data field cannot be empty"@)
            } else {
                b
            };
            &&& said == if bare {
                c.push("Non valid schema. Enter your blend command with a key `data_sync`"@)
            } else {
                c
            }
            &&& starts(is_rendering, file_present, keys) <==> is_rendering == "false"@
                && file_present == "true"@ && !bare
        }),
{
    if keys is Some {
        let list = keys->0@;
        if texts(list).contains("data_sync"@) {
            let i = texts(list).index_of("data_sync"@);
            assert(list[i]@ == "data_sync"@);
        }
        if exists|i: int| 0 <= i < list.len() && (#[trigger] list[i])@ == "data_sync"@ {
            let i = choose|i: int| 0 <= i < list.len() && (#[trigger] list[i])@ == "data_sync"@;
            assert(texts(list)[i] == "data_sync"@);
        }
    }
}

/// Every Blender process is called in the background, on the scene, writes to
/// the output directory, and runs the script that sets up the denoiser.
pub proof fn every_process_is_called_alike(blend_path: Seq<char>)
    ensures
        common_args(blend_path).len() == 6,
        common_args(blend_path)[0] == "-b"@,
        common_args(blend_path)[1] == blend_path,
        common_args(blend_path)[2] == "-o"@,
        common_args(blend_path)[3] == "./output/"@,
        common_args(blend_path)[4] == "-P"@,
        common_args(blend_path)[5] == "cycles_optix_denoise_logic.py"@,
{
}

} // verus!

//! Distributed training: how a recipe becomes a run of a training framework, and what
//! is made of the run's checkpoint.
//!
//! A cluster's own loss is only a dev signal; the referee scores the artifact again on
//! the held-out split.
use crate::binary64::{bits_tell_what_is_a_number, Binary64};
use crate::json::{number_field, read_number, reading};
use crate::text::{decimal, texts, to_decimal, trim, trimmed};
use crate::traits::EngineError;
use vstd::prelude::*;

verus! {

/// What a market recipe sets of a distributed training run.
#[derive(Clone, Copy, Debug, PartialEq)]
pub struct TrainingRecipe {
    /// Loosely coupled groups of workers.
    pub islands: u32,
    /// Local steps between two synchronisations.
    pub inner_steps: u32,
    pub inner_lr: Binary64,
    pub outer_lr: Binary64,
    /// The fraction of a gradient that is kept.
    pub keep_fraction: Binary64,
}

/// What a training run gives back.
#[derive(Clone, Copy, Debug, PartialEq)]
pub struct TrainedArtifact {
    pub recipe: TrainingRecipe,
    pub train_seed: u64,
    /// The cluster's own loss.
    pub train_loss: Binary64,
}

/// A cluster that trains recipes.
pub trait TrainingCluster {
    /// Stable identifier of the cluster kind.
    fn id(&self) -> &str;

    /// Whether the cluster trains inside a sealed environment.
    fn provides_sealed_isolation(&self) -> bool;
}

// --- prime ------------------------------------------------------------------

/// The synchronisation schedule of a `prime` run.
#[derive(Clone, Copy, Debug, PartialEq)]
pub struct PrimeDiLoCo {
    pub inner_steps: u32,
    pub outer_lr: Binary64,
}

/// The local optimizer of a `prime` run.
#[derive(Clone, Copy, Debug, PartialEq)]
pub struct PrimeOptimizer {
    pub lr: Binary64,
}

/// The gradient compression of a `prime` run.
#[derive(Clone, Copy, Debug, PartialEq)]
pub struct PrimeCompression {
    pub keep_fraction: Binary64,
}

/// The model of a `prime` run.
#[derive(Clone, Debug, PartialEq, Eq)]
pub struct PrimeModel {
    pub name: String,
    /// The length that tokens are packed to.
    pub seq_len: u32,
}

/// The data of a `prime` run.
#[derive(Clone, Debug, PartialEq, Eq)]
pub struct PrimeData {
    pub dataset: String,
    pub micro_batch_size: u32,
}

/// A complete `prime` run.
#[derive(Clone, Debug, PartialEq)]
pub struct PrimeConfig {
    /// Data-parallel replicas, one per island.
    pub num_replicas: u32,
    pub diloco: PrimeDiLoCo,
    pub optimizer: PrimeOptimizer,
    pub compression: PrimeCompression,
    pub model: PrimeModel,
    pub data: PrimeData,
}

/// The model that a run trains unless told otherwise.
pub const DEFAULT_MODEL: &'static str = "meta-llama/Llama-3.2-1B";

/// The dataset that a run streams unless told otherwise.
pub const DEFAULT_DATASET: &'static str = "HuggingFaceFW/fineweb-edu";

impl PrimeConfig {
    /// The run is that of the recipe: each knob lands on the field that it controls, and
    /// model and data are the defaults.
    pub open spec fn runs(self, recipe: TrainingRecipe) -> bool {
        &&& self.num_replicas == recipe.islands
        &&& self.diloco == (PrimeDiLoCo {
            inner_steps: recipe.inner_steps,
            outer_lr: recipe.outer_lr,
        })
        &&& self.optimizer == (PrimeOptimizer { lr: recipe.inner_lr })
        &&& self.compression == (PrimeCompression { keep_fraction: recipe.keep_fraction })
        &&& self.model.name@ == DEFAULT_MODEL@
        &&& self.model.seq_len == 2048
        &&& self.data.dataset@ == DEFAULT_DATASET@
        &&& self.data.micro_batch_size == 16
    }
}

/// The `prime` run of a recipe.
pub fn recipe_to_prime_config(recipe: &TrainingRecipe) -> (r: PrimeConfig)
    ensures
        r.runs(*recipe),
{
    PrimeConfig {
        num_replicas: recipe.islands,
        diloco: PrimeDiLoCo { inner_steps: recipe.inner_steps, outer_lr: recipe.outer_lr },
        optimizer: PrimeOptimizer { lr: recipe.inner_lr },
        compression: PrimeCompression { keep_fraction: recipe.keep_fraction },
        model: PrimeModel { name: DEFAULT_MODEL.to_owned(), seq_len: 2048 },
        data: PrimeData { dataset: DEFAULT_DATASET.to_owned(), micro_batch_size: 16 },
    }
}

// --- Psyche -----------------------------------------------------------------

/// The distributed-optimizer schedule of a Psyche job.
#[derive(Clone, Copy, Debug, PartialEq)]
pub struct PsycheDistro {
    pub inner_steps: u32,
    pub outer_lr: Binary64,
    pub keep_fraction: Binary64,
}

/// A Psyche job.
#[derive(Clone, Debug, PartialEq)]
pub struct PsycheConfig {
    pub num_clients: u32,
    pub lr: Binary64,
    pub distro: PsycheDistro,
    pub model: String,
    pub dataset: String,
}

impl PsycheConfig {
    /// The job is that of the recipe, with the default model and data.
    pub open spec fn runs(self, recipe: TrainingRecipe) -> bool {
        &&& self.num_clients == recipe.islands
        &&& self.lr == recipe.inner_lr
        &&& self.distro == (PsycheDistro {
            inner_steps: recipe.inner_steps,
            outer_lr: recipe.outer_lr,
            keep_fraction: recipe.keep_fraction,
        })
        &&& self.model@ == DEFAULT_MODEL@
        &&& self.dataset@ == DEFAULT_DATASET@
    }
}

/// The Psyche job of a recipe.
pub fn recipe_to_psyche_config(recipe: &TrainingRecipe) -> (r: PsycheConfig)
    ensures
        r.runs(*recipe),
{
    PsycheConfig {
        num_clients: recipe.islands,
        lr: recipe.inner_lr,
        distro: PsycheDistro {
            inner_steps: recipe.inner_steps,
            outer_lr: recipe.outer_lr,
            keep_fraction: recipe.keep_fraction,
        },
        model: DEFAULT_MODEL.to_owned(),
        dataset: DEFAULT_DATASET.to_owned(),
    }
}

/// A run tells every knob of its recipe: recipes with the same run are the same.
pub proof fn configs_determine_the_recipe(
    a: TrainingRecipe,
    b: TrainingRecipe,
    prime: PrimeConfig,
    psyche: PsycheConfig,
)
    requires
        prime.runs(a) && prime.runs(b) || psyche.runs(a) && psyche.runs(b),
    ensures
        a == b,
{
}

// --- Checkpoints ------------------------------------------------------------

/// Why a read checkpoint summary has no usable loss, if it has none.
pub open spec fn checkpoint_fault(read: Result<Option<u64>, Seq<char>>) -> Option<Seq<char>> {
    match read {
        Err(e) => Some("checkpoint summary was not JSON: "@ + e),
        Ok(Some(bits)) => if (Binary64 { bits }).finite() {
            None
        } else {
            Some("checkpoint summary missing a finite `train_loss`"@)
        },
        Ok(None) => Some("checkpoint summary missing a finite `train_loss`"@),
    }
}

/// The loss of a checkpoint summary, given how its field was read.
pub fn checkpoint_loss(read: Result<Option<Binary64>, String>) -> (r: Result<Binary64, EngineError>)
    ensures
        match checkpoint_fault(reading(read)) {
            None => r matches Ok(loss) && read == Ok::<Option<Binary64>, String>(Some(loss)),
            Some(why) => r matches Err(EngineError::Backend(m)) && m@ == why,
        },
{
    match read {
        Err(e) => Err(
            EngineError::Backend(
                "checkpoint summary was not JSON: ".to_owned().concat(e.as_str()),
            ),
        ),
        Ok(found) => {
            if let Some(loss) = found {
                if loss.is_finite() {
                    return Ok(loss);
                }
            }
            Err(
                EngineError::Backend(
                    "checkpoint summary missing a finite `train_loss`".to_owned(),
                ),
            )
        },
    }
}

/// The summary that a framework's output is read as.
pub open spec fn summary_reading(stdout: Seq<char>) -> Result<Option<u64>, Seq<char>> {
    number_field(trimmed(stdout), "train_loss"@)
}

/// The finite number in the field `train_loss` of a checkpoint summary.
pub fn parse_checkpoint_loss(stdout: &str) -> (r: Result<Binary64, EngineError>)
    ensures
        match checkpoint_fault(summary_reading(stdout@)) {
            None => r matches Ok(loss) && summary_reading(stdout@) == Ok::<
                Option<u64>,
                Seq<char>,
            >(Some(loss.bits)),
            Some(why) => r matches Err(EngineError::Backend(m)) && m@ == why,
        },
{
    checkpoint_loss(read_number(trim(stdout), "train_loss"))
}

/// How the attempt to have a framework train went.
#[derive(Debug)]
pub enum ClusterRun {
    /// The framework is not enabled.
    Disabled,
    /// The run could not be written down.
    NoConfig(String),
    /// The framework could not be started.
    NotLaunched(String),
    /// The framework ended with a failure.
    Failed { status: String, stderr: String },
    /// The framework finished and printed its checkpoint summary.
    Finished { stdout: String },
}

/// The texts that a framework's failures are told with.
struct Wording {
    disabled: &'static str,
    no_config: &'static str,
    launch: &'static str,
    launch_hint: &'static str,
    exited: &'static str,
}

/// What a run comes to, given why it failed, if it failed before it printed.
pub open spec fn trained(
    recipe: TrainingRecipe,
    seed: u64,
    early: Option<Seq<char>>,
    stdout: Seq<char>,
    out: Result<TrainedArtifact, EngineError>,
) -> bool {
    match early {
        Some(why) => out matches Err(EngineError::Backend(m)) && m@ == why,
        None => match checkpoint_fault(summary_reading(stdout)) {
            Some(why) => out matches Err(EngineError::Backend(m)) && m@ == why,
            None => {
                &&& out matches Ok(artifact)
                &&& artifact.recipe == recipe
                &&& artifact.train_seed == seed
                &&& summary_reading(stdout) == Ok::<Option<u64>, Seq<char>>(
                    Some(artifact.train_loss.bits),
                )
            },
        },
    }
}

/// What a run printed.
pub open spec fn printed(run: ClusterRun) -> Seq<char> {
    match run {
        ClusterRun::Finished { stdout } => stdout@,
        _ => Seq::empty(),
    }
}

fn settle_run(recipe: &TrainingRecipe, seed: u64, run: ClusterRun, binary: &str, say: &Wording) -> (r:
    Result<TrainedArtifact, EngineError>)
    ensures
        trained(
            *recipe,
            seed,
            match run {
                ClusterRun::Disabled => Some(say.disabled@),
                ClusterRun::NoConfig(e) => Some(say.no_config@ + e@),
                ClusterRun::NotLaunched(e) => Some(
                    say.launch@ + binary@ + say.launch_hint@ + e@,
                ),
                ClusterRun::Failed { status, stderr } => Some(
                    say.exited@ + status@ + ": "@ + stderr@,
                ),
                ClusterRun::Finished { .. } => None,
            },
            printed(run),
            r,
        ),
{
    let text = match run {
        ClusterRun::Disabled => say.disabled.to_owned(),
        ClusterRun::NoConfig(e) => say.no_config.to_owned().concat(e.as_str()),
        ClusterRun::NotLaunched(e) => {
            let mut text = say.launch.to_owned();
            text.append(binary);
            text.append(say.launch_hint);
            text.append(e.as_str());
            text
        },
        ClusterRun::Failed { status, stderr } => {
            let mut text = say.exited.to_owned();
            text.append(status.as_str());
            text.append(": ");
            text.append(stderr.as_str());
            text
        },
        ClusterRun::Finished { stdout } => {
            return match parse_checkpoint_loss(stdout.as_str()) {
                Ok(train_loss) => Ok(
                    TrainedArtifact { recipe: *recipe, train_seed: seed, train_loss },
                ),
                Err(e) => Err(e),
            };
        },
    };
    Err(EngineError::Backend(text))
}

/// The arguments of a framework's invocation.
pub open spec fn prime_arguments(config_json: Seq<char>, seed: u64) -> Seq<Seq<char>> {
    seq!["train"@, "--config"@, config_json, "--seed"@, decimal(seed as nat)]
}

/// The arguments of a job submission.
pub open spec fn psyche_arguments(
    service_instance: u64,
    config_json: Seq<char>,
    seed: u64,
) -> Seq<Seq<char>> {
    seq![
        "submit-job"@,
        "--service-instance"@,
        decimal(service_instance as nat),
        "--config"@,
        config_json,
        "--seed"@,
        decimal(seed as nat),
    ]
}

/// A cluster that trains with `prime`.
#[derive(Clone, Debug)]
pub struct PrimeCluster {
    /// The binary to invoke.
    pub binary: String,
    /// Whether runs are pinned to an enclave.
    pub tee: bool,
}

/// Why a `prime` run failed before it printed, if it did.
pub open spec fn prime_fault(binary: Seq<char>, run: ClusterRun) -> Option<Seq<char>> {
    match run {
        ClusterRun::Disabled => Some("prime-backend feature not enabled: needs prime + GPUs"@),
        ClusterRun::NoConfig(e) => Some("prime config serialization: "@ + e@),
        ClusterRun::NotLaunched(e) => Some(
            "prime launch failed (is `"@ + binary + "` installed + GPUs present?): "@ + e@,
        ),
        ClusterRun::Failed { status, stderr } => Some(
            "prime run exited "@ + status@ + ": "@ + stderr@,
        ),
        ClusterRun::Finished { .. } => None,
    }
}

impl PrimeCluster {
    /// A cluster that invokes `prime`, not pinned to an enclave.
    pub fn new() -> (r: Self)
        ensures
            r.binary@ == "prime"@,
            !r.tee,
    {
        PrimeCluster { binary: "prime".to_owned(), tee: false }
    }

    /// The cluster with its runs pinned to an enclave.
    pub fn with_tee(self) -> (r: Self)
        ensures
            r == (PrimeCluster { tee: true, ..self }),
    {
        let mut this = self;
        this.tee = true;
        this
    }

    /// The arguments that the binary is invoked with.
    pub fn arguments(&self, config_json: String, seed: u64) -> (r: Vec<String>)
        ensures
            texts(r@) == prime_arguments(config_json@, seed),
    {
        let r = vec![
            "train".to_owned(),
            "--config".to_owned(),
            config_json,
            "--seed".to_owned(),
            to_decimal(seed),
        ];
        proof {
            assert(texts(r@) =~= prime_arguments(config_json@, seed));
        }
        r
    }

    /// What training a recipe comes to, given how the run went.
    pub fn train(&self, recipe: &TrainingRecipe, seed: u64, run: ClusterRun) -> (r: Result<
        TrainedArtifact,
        EngineError,
    >)
        ensures
            trained(*recipe, seed, prime_fault(self.binary@, run), printed(run), r),
    {
        settle_run(
            recipe,
            seed,
            run,
            self.binary.as_str(),
            &Wording {
                disabled: "prime-backend feature not enabled: needs prime + GPUs",
                no_config: "prime config serialization: ",
                launch: "prime launch failed (is `",
                launch_hint: "` installed + GPUs present?): ",
                exited: "prime run exited ",
            },
        )
    }
}

impl Default for PrimeCluster {
    fn default() -> (r: Self)
        ensures
            r.binary@ == "prime"@,
            !r.tee,
    {
        PrimeCluster::new()
    }
}

impl TrainingCluster for PrimeCluster {
    fn id(&self) -> (r: &str)
        ensures
            r@ == "prime-cluster"@,
    {
        "prime-cluster"
    }

    fn provides_sealed_isolation(&self) -> (r: bool)
        ensures
            r == self.tee,
    {
        self.tee
    }
}

/// A cluster that trains with Psyche, as a job of a service instance.
#[derive(Clone, Debug)]
pub struct PsycheCluster {
    /// The client that submits the job.
    pub client: String,
    pub service_instance: u64,
    /// Whether the operators run in an enclave.
    pub tee: bool,
}

/// Why a Psyche job failed before it printed, if it did.
pub open spec fn psyche_fault(client: Seq<char>, run: ClusterRun) -> Option<Seq<char>> {
    match run {
        ClusterRun::Disabled => Some(
            "psyche-backend feature not enabled: needs psyche client + operator cluster"@,
        ),
        ClusterRun::NoConfig(e) => Some("psyche config serialization: "@ + e@),
        ClusterRun::NotLaunched(e) => Some(
            "psyche job submission failed (is `"@ + client
                + "` installed + operators reachable?): "@ + e@,
        ),
        ClusterRun::Failed { status, stderr } => Some(
            "psyche job exited "@ + status@ + ": "@ + stderr@,
        ),
        ClusterRun::Finished { .. } => None,
    }
}

impl PsycheCluster {
    /// A cluster that submits to `service_instance` through `psyche`.
    pub fn new(service_instance: u64) -> (r: Self)
        ensures
            r.client@ == "psyche"@,
            r.service_instance == service_instance,
            !r.tee,
    {
        PsycheCluster { client: "psyche".to_owned(), service_instance, tee: false }
    }

    /// The cluster with its operators in an enclave.
    pub fn with_tee(self) -> (r: Self)
        ensures
            r == (PsycheCluster { tee: true, ..self }),
    {
        let mut this = self;
        this.tee = true;
        this
    }

    /// The arguments that the client is invoked with.
    pub fn arguments(&self, config_json: String, seed: u64) -> (r: Vec<String>)
        ensures
            texts(r@) == psyche_arguments(self.service_instance, config_json@, seed),
    {
        let r = vec![
            "submit-job".to_owned(),
            "--service-instance".to_owned(),
            to_decimal(self.service_instance),
            "--config".to_owned(),
            config_json,
            "--seed".to_owned(),
            to_decimal(seed),
        ];
        proof {
            assert(texts(r@) =~= psyche_arguments(self.service_instance, config_json@, seed));
        }
        r
    }

    /// What training a recipe comes to, given how the job went.
    pub fn train(&self, recipe: &TrainingRecipe, seed: u64, run: ClusterRun) -> (r: Result<
        TrainedArtifact,
        EngineError,
    >)
        ensures
            trained(*recipe, seed, psyche_fault(self.client@, run), printed(run), r),
    {
        settle_run(
            recipe,
            seed,
            run,
            self.client.as_str(),
            &Wording {
                disabled: "psyche-backend feature not enabled: needs psyche client + operator cluster",
                no_config: "psyche config serialization: ",
                launch: "psyche job submission failed (is `",
                launch_hint: "` installed + operators reachable?): ",
                exited: "psyche job exited ",
            },
        )
    }
}

impl TrainingCluster for PsycheCluster {
    fn id(&self) -> (r: &str)
        ensures
            r@ == "psyche-cluster"@,
    {
        "psyche-cluster"
    }

    fn provides_sealed_isolation(&self) -> (r: bool)
        ensures
            r == self.tee,
    {
        self.tee
    }
}

// --- What a run comes to, in plain terms -------------------------------------

/// A run has the knobs of its recipe and the default model and data.
pub proof fn a_run_has_the_knobs_of_its_recipe(
    recipe: TrainingRecipe,
    prime: PrimeConfig,
    psyche: PsycheConfig,
)
    requires
        prime.runs(recipe),
        psyche.runs(recipe),
    ensures
        prime.num_replicas == recipe.islands && psyche.num_clients == recipe.islands,
        prime.diloco.inner_steps == recipe.inner_steps && psyche.distro.inner_steps
            == recipe.inner_steps,
        prime.diloco.outer_lr == recipe.outer_lr && psyche.distro.outer_lr == recipe.outer_lr,
        prime.optimizer.lr == recipe.inner_lr && psyche.lr == recipe.inner_lr,
        prime.compression.keep_fraction == recipe.keep_fraction && psyche.distro.keep_fraction
            == recipe.keep_fraction,
        prime.model.seq_len == 2048 && prime.data.micro_batch_size == 16,
        prime.model.name@ == psyche.model@ && psyche.model@ == "meta-llama/Llama-3.2-1B"@,
        prime.data.dataset@ == psyche.dataset@ && psyche.dataset@
            == "HuggingFaceFW/fineweb-edu"@,
{
}

/// A checkpoint is good exactly where its summary could be read and holds a loss that is
/// a finite number.
pub proof fn only_a_finite_loss_is_a_checkpoint(read: Result<Option<u64>, Seq<char>>)
    ensures
        checkpoint_fault(read) is None <==> {
            &&& read matches Ok(Some(bits))
            &&& bits % 0x8000_0000_0000_0000 < 0x7ff0_0000_0000_0000
        },
        read matches Err(e) ==> checkpoint_fault(read) == Some(
            "checkpoint summary was not JSON: "@ + e,
        ),
        read is Ok && checkpoint_fault(read) is Some ==> checkpoint_fault(read) == Some(
            "checkpoint summary missing a finite `train_loss`"@,
        ),
{
    if let Ok(Some(bits)) = read {
        bits_tell_what_is_a_number(Binary64 { bits });
    }
}

/// Something is trained exactly where the framework finished and what it printed is a
/// good checkpoint; then it is the recipe that was run, with the seed that it was run
/// with and the loss that was printed.
pub proof fn a_training_needs_a_finished_run_and_a_loss(
    recipe: TrainingRecipe,
    seed: u64,
    name: Seq<char>,
    run: ClusterRun,
    out: Result<TrainedArtifact, EngineError>,
)
    requires
        trained(recipe, seed, prime_fault(name, run), printed(run), out) || trained(
            recipe,
            seed,
            psyche_fault(name, run),
            printed(run),
            out,
        ),
    ensures
        out is Ok <==> {
            &&& run matches ClusterRun::Finished { stdout }
            &&& number_field(trimmed(stdout@), "train_loss"@) matches Ok(Some(bits))
            &&& bits % 0x8000_0000_0000_0000 < 0x7ff0_0000_0000_0000
        },
        out matches Ok(artifact) ==> {
            &&& artifact.recipe == recipe
            &&& artifact.train_seed == seed
            &&& number_field(trimmed(run->Finished_stdout@), "train_loss"@) == Ok::<
                Option<u64>,
                Seq<char>,
            >(Some(artifact.train_loss.bits))
        },
        out matches Err(e) ==> e is Backend,
{
    only_a_finite_loss_is_a_checkpoint(summary_reading(printed(run)));
}

/// What training comes to: an artifact of the recipe, the seed and the printed loss where
/// the framework finished and printed a finite loss, and a failure otherwise.
pub proof fn a_cluster_hands_over_what_was_trained(
    prime: &PrimeCluster,
    psyche: &PsycheCluster,
    recipe: &TrainingRecipe,
    seed: u64,
    run: ClusterRun,
    by_prime: Result<TrainedArtifact, EngineError>,
    by_psyche: Result<TrainedArtifact, EngineError>,
)
    requires
        call_ensures(PrimeCluster::train, (prime, recipe, seed, run), by_prime),
        call_ensures(PsycheCluster::train, (psyche, recipe, seed, run), by_psyche),
    ensures
        ({
            let good = {
                &&& run matches ClusterRun::Finished { stdout }
                &&& number_field(trimmed(stdout@), "train_loss"@) matches Ok(Some(bits))
                &&& bits % 0x8000_0000_0000_0000 < 0x7ff0_0000_0000_0000
            };
            &&& by_prime is Ok <==> good
            &&& by_psyche is Ok <==> good
        }),
        by_prime matches Ok(artifact) ==> artifact.recipe == *recipe && artifact.train_seed == seed,
        by_psyche matches Ok(artifact) ==> artifact.recipe == *recipe && artifact.train_seed
            == seed,
        by_prime is Ok ==> by_prime->Ok_0.train_loss == by_psyche->Ok_0.train_loss,
{
    a_training_needs_a_finished_run_and_a_loss(*recipe, seed, prime.binary@, run, by_prime);
    a_training_needs_a_finished_run_and_a_loss(*recipe, seed, psyche.client@, run, by_psyche);
}

/// A framework is invoked with the run and the seed, and a job with its service instance
/// before them.
pub proof fn a_framework_is_given_the_run_and_the_seed(
    prime: &PrimeCluster,
    psyche: &PsycheCluster,
    config_json: String,
    seed: u64,
    by_prime: Vec<String>,
    by_psyche: Vec<String>,
)
    requires
        call_ensures(PrimeCluster::arguments, (prime, config_json, seed), by_prime),
        call_ensures(PsycheCluster::arguments, (psyche, config_json, seed), by_psyche),
    ensures
        by_prime@.len() == 5,
        by_prime@[0]@ == "train"@ && by_prime@[1]@ == "--config"@ && by_prime@[2]@ == config_json@,
        by_prime@[3]@ == "--seed"@ && by_prime@[4]@ == decimal(seed as nat),
        by_psyche@.len() == 7,
        by_psyche@[0]@ == "submit-job"@ && by_psyche@[1]@ == "--service-instance"@,
        by_psyche@[2]@ == decimal(psyche.service_instance as nat),
        by_psyche@[3]@ == "--config"@ && by_psyche@[4]@ == config_json@,
        by_psyche@[5]@ == "--seed"@ && by_psyche@[6]@ == decimal(seed as nat),
{
    let (p, q) = (texts(by_prime@), texts(by_psyche@));
    assert(p.len() == by_prime@.len() && q.len() == by_psyche@.len());
    assert forall|i: int| 0 <= i < p.len() implies #[trigger] p[i] == by_prime@[i]@ by {}
    assert forall|i: int| 0 <= i < q.len() implies #[trigger] q[i] == by_psyche@[i]@ by {}
    assert(p[0] == "train"@ && p[1] == "--config"@ && p[2] == config_json@);
    assert(p[3] == "--seed"@ && p[4] == decimal(seed as nat));
    assert(q[0] == "submit-job"@ && q[1] == "--service-instance"@);
    assert(q[2] == decimal(psyche.service_instance as nat));
    assert(q[3] == "--config"@ && q[4] == config_json@);
    assert(q[5] == "--seed"@ && q[6] == decimal(seed as nat));
}

} // verus!

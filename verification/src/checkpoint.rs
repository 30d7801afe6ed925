//! A checkpoint that may be one safetensors file or many.
//!
//! Every large checkpoint ships sharded: several safetensors files and a
//! `model.safetensors.index.json` mapping each tensor name to the file holding
//! it. Below that size a single `model.safetensors` is the norm. Shards are not
//! joined: a name lookup routes to the right one.

use vstd::prelude::*;

use crate::error::{ConfigIssue, Error};
use crate::format::product_fits;
use crate::json::{borrowed_view, parsed_json, Json, JsonView};
use crate::names::{ascending, name_before, names_ascend, ordering_keeps_the_last_of_each_name};
use crate::safetensors::{spec_index_of, SafeTensors, TensorSpec, TensorView};
use crate::text::str_eq;

verus! {

/// How the weights of a model are laid out in its directory.
#[derive(Debug, Clone, Copy, PartialEq, Eq, Structural)]
pub enum Layout {
    /// One `model.safetensors`.
    Single,
    /// Shards, listed in `model.safetensors.index.json`.
    Sharded,
}

/// Picks the layout from what is there: a single file first, then the index.
pub fn choose_layout(single_exists: bool, index_exists: bool) -> (r: Result<Layout, Error>)
    ensures
        match r {
            Ok(Layout::Single) => single_exists,
            Ok(Layout::Sharded) => !single_exists && index_exists,
            Err(e) => !single_exists && !index_exists && e == Error::Config(ConfigIssue::NoWeights),
        },
{
    if single_exists {
        Ok(Layout::Single)
    } else if index_exists {
        Ok(Layout::Sharded)
    } else {
        Err(Error::Config(ConfigIssue::NoWeights))
    }
}

/// The shards an index lists, and which of them holds each tensor.
pub struct ShardPlan {
    files: Vec<String>,
    owner: Vec<(String, usize)>,
}

/// What a plan says.
#[verifier::ext_equal]
pub struct ShardPlanView {
    /// File names, each once, in the order in which tensors first name them.
    pub files: Seq<Seq<char>>,
    /// Tensor name to position in `files`, in the order of the names.
    pub owner: Seq<(Seq<char>, usize)>,
}

impl ShardPlan {
    /// What the plan says.
    pub closed spec fn view(&self) -> ShardPlanView {
        ShardPlanView { files: file_names(self.files@), owner: owner_views(self.owner@) }
    }

    /// Names ascend, and each is routed to a file that is listed.
    #[verifier::type_invariant]
    spec fn wf(self) -> bool {
        &&& ascending(self@.owner)
        &&& forall|i: int| 0 <= i < self.owner@.len() ==> (#[trigger] self.owner@[i]).1 < self.files@.len()
    }

    /// The files, each once, in the order in which tensors first name them.
    pub fn files(&self) -> (files: &Vec<String>)
        ensures
            file_names(files@) == self@.files,
    {
        &self.files
    }
}

/// The members of an index's weight map, in the order of their names.
pub open spec fn weight_map(doc: JsonView) -> Option<Seq<(Seq<char>, JsonView)>> {
    match doc.get("weight_map"@) {
        Some(m) => m.by_name(),
        None => None,
    }
}

/// The first member from `i` on that names no file.
pub open spec fn unnamed(members: Seq<(Seq<char>, JsonView)>, i: int) -> Option<int>
    decreases members.len() - i,
    when 0 <= i
{
    if i >= members.len() {
        None
    } else if members[i].1.as_text() is None {
        Some(i)
    } else {
        unnamed(members, i + 1)
    }
}

/// Where a file name first stands in a list, from `i` on.
pub open spec fn file_index(files: Seq<Seq<char>>, file: Seq<char>, i: int) -> Option<int>
    decreases files.len() - i,
    when 0 <= i
{
    if i >= files.len() {
        None
    } else if files[i] == file {
        Some(i)
    } else {
        file_index(files, file, i + 1)
    }
}

/// The distinct files that the first `n` members name, in the order in which they
/// are first named.
pub open spec fn shard_files(members: Seq<(Seq<char>, JsonView)>, n: int) -> Seq<Seq<char>>
    decreases n,
{
    if n <= 0 {
        seq![]
    } else {
        let before = shard_files(members, n - 1);
        let file = members[n - 1].1.as_text()->0;
        if file_index(before, file, 0) is Some {
            before
        } else {
            before.push(file)
        }
    }
}

/// The file names of a list.
pub open spec fn file_names(files: Seq<String>) -> Seq<Seq<char>> {
    files.map_values(|f: String| f@)
}

proof fn lemma_file_index(files: Seq<Seq<char>>, file: Seq<char>, i: int)
    requires
        0 <= i,
    ensures
        file_index(files, file, i) matches Some(k) ==> i <= k < files.len() && files[k] == file,
    decreases files.len() - i,
{
    if i < files.len() && files[i] != file {
        lemma_file_index(files, file, i + 1);
    }
}

/// Finds a file name in a list.
fn find_file(files: &Vec<String>, file: &str) -> (at: Option<usize>)
    ensures
        match (at, file_index(file_names(files@), file@, 0)) {
            (Some(i), Some(want)) => i == want,
            (None, None) => true,
            _ => false,
        },
{
    let ghost all = file_names(files@);
    let mut i: usize = 0;
    while i < files.len()
        invariant
            i <= files@.len(),
            all == file_names(files@),
            file_index(all, file@, 0) == file_index(all, file@, i as int),
        decreases files@.len() - i,
    {
        assert(all[i as int] == files@[i as int]@);
        if str_eq(files[i].as_str(), file) {
            return Some(i);
        }
        i = i + 1;
    }
    None
}

/// Whether a plan routes the first `n` members of a weight map: to the files they
/// name, each listed once.
pub open spec fn routes(plan: ShardPlanView, members: Seq<(Seq<char>, JsonView)>, n: int) -> bool {
    &&& plan.files == shard_files(members, n)
    &&& plan.owner.len() == n
    &&& forall|i: int|
        0 <= i < n ==> {
            let (name, k) = #[trigger] plan.owner[i];
            &&& name == members[i].0
            &&& k < plan.files.len()
            &&& plan.files[k as int] == members[i].1.as_text()->0
        }
}

/// Reads a parsed shard index: which files there are, and which holds each tensor.
pub fn plan_shards(doc: &Json) -> (r: Result<ShardPlan, Error>)
    ensures
        r is Ok <==> weight_map(doc@) is Some && unnamed(weight_map(doc@)->0, 0) is None,
        r matches Ok(plan) ==> routes(plan@, weight_map(doc@)->0, weight_map(doc@)->0.len() as int),
        r matches Err(e) ==> match weight_map(doc@) {
            None => e == Error::Config(ConfigIssue::NoWeightMap),
            Some(members) => e matches Error::Config(ConfigIssue::WeightEntry(n)) && n@ == members[unnamed(
                members,
                0,
            )->0].0,
        },
{
    let members = match doc.get("weight_map") {
        Some(m) => match m.by_name() {
            Some(o) => {
                proof {
                    ordering_keeps_the_last_of_each_name(m@.as_object()->0);
                }
                o
            },
            None => {
                return Err(Error::Config(ConfigIssue::NoWeightMap));
            },
        },
        None => {
            return Err(Error::Config(ConfigIssue::NoWeightMap));
        },
    };
    let ghost all = borrowed_view(members@);
    let mut files: Vec<String> = Vec::new();
    let mut owner: Vec<(String, usize)> = Vec::new();
    let ghost mut said = ShardPlanView { files: seq![], owner: seq![] };
    let mut i: usize = 0;
    assert(file_names(files@) =~= seq![]);
    assert(owner_views(owner@) =~= seq![]);
    while i < members.len()
        invariant
            i <= members@.len(),
            all == borrowed_view(members@),
            weight_map(doc@) == Some(all),
            unnamed(all, 0) == unnamed(all, i as int),
            said == (ShardPlanView { files: file_names(files@), owner: owner_views(owner@) }),
            routes(said, all, i as int),
        decreases members@.len() - i,
    {
        assert(all[i as int] == (members@[i as int].0@, members@[i as int].1@));
        let file = match members[i].1.as_text() {
            Some(f) => f,
            None => {
                return Err(Error::Config(ConfigIssue::WeightEntry(members[i].0.clone())));
            },
        };
        let ghost before = said;
        proof {
            lemma_file_index(before.files, file@, 0);
        }
        let k: usize = match find_file(&files, file.as_str()) {
            Some(k) => k,
            None => {
                let k: usize = files.len();
                files.push(file.clone());
                assert(file_names(files@) =~= before.files.push(file@));
                k
            },
        };
        let name = members[i].0.clone();
        let ghost listed = (name@, k);
        owner.push((name, k));
        proof {
            assert(owner_views(owner@) =~= before.owner.push(listed));
            said = ShardPlanView { files: file_names(files@), owner: owner_views(owner@) };
            assert forall|j: int| 0 <= j < i + 1 implies {
                let (name, p) = #[trigger] said.owner[j];
                &&& name == all[j].0
                &&& p < said.files.len()
                &&& said.files[p as int] == all[j].1.as_text()->0
            } by {
                if j < i {
                    assert(said.owner[j] == before.owner[j]);
                    assert(said.files[before.owner[j].1 as int] == before.files[before.owner[j].1 as int]);
                }
            }
        }
        i = i + 1;
    }
    proof {
        assert forall|a: int, b: int|
            #![trigger said.owner[a], said.owner[b]]
            0 <= a < b < said.owner.len() implies name_before(said.owner[a].0, said.owner[b].0) by {
            assert(name_before(all[a].0, all[b].0));
        }
        assert forall|a: int| 0 <= a < owner@.len() implies (#[trigger] owner@[a]).1 < files@.len() by {
            assert(said.owner[a].1 == owner@[a].1);
        }
    }
    Ok(ShardPlan { files, owner })
}

/// Parses a shard index.
pub fn read_index(text: &str) -> (r: Result<ShardPlan, Error>)
    ensures
        match parsed_json(text@) {
            None => r matches Err(Error::Config(ConfigIssue::NotJson(_))),
            Some(doc) => {
                &&& r is Ok <==> weight_map(doc) is Some && unnamed(weight_map(doc)->0, 0) is None
                &&& r matches Ok(plan) ==> routes(plan@, weight_map(doc)->0, weight_map(doc)->0.len() as int)
                &&& r matches Err(e) ==> match weight_map(doc) {
                    None => e == Error::Config(ConfigIssue::NoWeightMap),
                    Some(members) => e matches Error::Config(ConfigIssue::WeightEntry(n)) && n@
                        == members[unnamed(members, 0)->0].0,
                }
            },
        },
{
    match Json::parse(text) {
        Ok(doc) => plan_shards(&doc),
        Err(words) => Err(Error::Config(ConfigIssue::NotJson(words))),
    }
}

/// Refuses a listed shard whose file is not there: the download is incomplete.
pub fn require_shard(plan: &ShardPlan, k: usize, present: bool) -> (r: Result<(), Error>)
    requires
        k < plan@.files.len(),
    ensures
        r is Ok <==> present,
        r matches Err(e) ==> e matches Error::Config(ConfigIssue::ShardMissing(f)) && f@ == plan@.files[k as int],
{
    if present {
        Ok(())
    } else {
        Err(Error::Config(ConfigIssue::ShardMissing(plan.files[k].clone())))
    }
}

/// One or more safetensors shards, addressed as a single tensor namespace.
pub struct Checkpoint {
    shards: Vec<SafeTensors>,
    owner: Vec<(String, usize)>,
    files: Vec<String>,
}

/// What a checkpoint holds.
#[verifier::ext_equal]
pub struct CheckpointView {
    /// The tensors of each shard.
    pub shards: Seq<Seq<TensorSpec>>,
    /// Tensor name to shard.
    pub owner: Seq<(Seq<char>, usize)>,
    /// The file of each shard.
    pub files: Seq<Seq<char>>,
}

/// The tensors of each shard.
pub open spec fn shard_tensors(shards: Seq<SafeTensors>) -> Seq<Seq<TensorSpec>> {
    shards.map_values(|s: SafeTensors| s@.tensors)
}

/// The names of an owner list.
pub open spec fn owner_views(owner: Seq<(String, usize)>) -> Seq<(Seq<char>, usize)> {
    owner.map_values(|o: (String, usize)| (o.0@, o.1))
}

/// The first name from `i` on whose shard does not hold it.
pub open spec fn astray(owner: Seq<(Seq<char>, usize)>, shards: Seq<Seq<TensorSpec>>, i: int) -> Option<int>
    decreases owner.len() - i,
    when 0 <= i
{
    if i >= owner.len() {
        None
    } else if spec_index_of(shards[owner[i].1 as int], owner[i].0, 0) is None {
        Some(i)
    } else {
        astray(owner, shards, i + 1)
    }
}

/// Where a tensor name first stands in an owner list, from `i` on.
pub open spec fn owner_index(owner: Seq<(Seq<char>, usize)>, name: Seq<char>, i: int) -> Option<int>
    decreases owner.len() - i,
    when 0 <= i
{
    if i >= owner.len() {
        None
    } else if owner[i].0 == name {
        Some(i)
    } else {
        owner_index(owner, name, i + 1)
    }
}

proof fn lemma_owner_index(owner: Seq<(Seq<char>, usize)>, name: Seq<char>, i: int)
    requires
        0 <= i,
    ensures
        owner_index(owner, name, i) matches Some(k) ==> i <= k < owner.len() && owner[k].0 == name,
    decreases owner.len() - i,
{
    if i < owner.len() && owner[i].0 != name {
        lemma_owner_index(owner, name, i + 1);
    }
}

impl CheckpointView {
    /// Where a tensor is: its shard and its position there.
    pub open spec fn find(self, name: Seq<char>) -> Option<TensorSpec> {
        match owner_index(self.owner, name, 0) {
            None => None,
            Some(i) => {
                let shard = self.shards[self.owner[i].1 as int];
                match spec_index_of(shard, name, 0) {
                    None => None,
                    Some(k) => Some(shard[k]),
                }
            },
        }
    }

    /// The bytes of the first `n` tensors listed; a range that runs backward has
    /// none.
    pub open spec fn listed_bytes(self, n: int) -> nat
        decreases n,
    {
        if n <= 0 {
            0
        } else {
            match self.find(self.owner[n - 1].0) {
                Some(t) => if t.begin <= t.end {
                    self.listed_bytes(n - 1) + (t.end - t.begin) as nat
                } else {
                    self.listed_bytes(n - 1)
                },
                None => self.listed_bytes(n - 1),
            }
        }
    }
}

proof fn lemma_listed_bytes(c: CheckpointView, a: int, b: int)
    requires
        a <= b,
    ensures
        c.listed_bytes(a) <= c.listed_bytes(b),
    decreases b - a,
{
    if a < b {
        lemma_listed_bytes(c, a, b - 1);
    }
}

impl Checkpoint {
    /// What the checkpoint holds.
    pub closed spec fn view(&self) -> CheckpointView {
        CheckpointView {
            shards: shard_tensors(self.shards@),
            owner: owner_views(self.owner@),
            files: file_names(self.files@),
        }
    }

    /// Names ascend, and are routed to shards that are there and hold them.
    #[verifier::type_invariant]
    spec fn wf(self) -> bool {
        &&& ascending(self@.owner)
        &&& forall|i: int| 0 <= i < self.owner@.len() ==> (#[trigger] self.owner@[i]).1 < self.shards@.len()
        &&& astray(owner_views(self.owner@), shard_tensors(self.shards@), 0) is None
    }

    /// The checkpoint of a single file: every tensor it has.
    pub fn single(st: SafeTensors, file: String) -> (c: Checkpoint)
        ensures
            c@.shards == seq![st@.tensors],
            c@.files == seq![file@],
            c@.owner == Seq::new(st@.tensors.len(), |i: int| (st@.tensors[i].name, 0usize)),
    {
        let names = st.names();
        let mut owner: Vec<(String, usize)> = Vec::new();
        let mut i: usize = 0;
        while i < names.len()
            invariant
                i <= names@.len(),
                names@.len() == st@.tensors.len(),
                forall|k: int| 0 <= k < names@.len() ==> (#[trigger] names@[k])@ == st@.tensors[k].name,
                owner@.len() == i,
                forall|k: int| 0 <= k < i ==> (#[trigger] owner@[k]).0@ == st@.tensors[k].name && owner@[k].1 == 0,
            decreases names@.len() - i,
        {
            owner.push((names[i].clone(), 0));
            i = i + 1;
        }
        let ghost tensors = st@.tensors;
        let shards: Vec<SafeTensors> = vec![st];
        let files: Vec<String> = vec![file];
        proof {
            let ov = owner_views(owner@);
            let sv = shard_tensors(shards@);
            assert(sv =~= seq![tensors]);
            assert(file_names(files@) =~= seq![file@]);
            assert(ov =~= Seq::new(tensors.len(), |k: int| (tensors[k].name, 0usize)));
            assert forall|a: int, b: int|
                #![trigger ov[a], ov[b]]
                0 <= a < b < ov.len() implies name_before(ov[a].0, ov[b].0) by {
                assert(name_before(names@[a]@, names@[b]@));
            }
            lemma_single(ov, tensors, 0);
        }
        Checkpoint { shards, owner, files }
    }

    /// Joins the shards of a plan, which stand in the order of its files.
    ///
    /// The index is metadata and the shards are the truth: a tensor that the
    /// index promises and its shard does not hold is an error here, rather than
    /// much later.
    pub fn assemble(plan: ShardPlan, shards: Vec<SafeTensors>) -> (r: Result<Checkpoint, Error>)
        requires
            shards@.len() == plan@.files.len(),
        ensures
            r is Ok <==> astray(plan@.owner, shard_tensors(shards@), 0) is None,
            r matches Ok(c) ==> c@ == (CheckpointView {
                shards: shard_tensors(shards@),
                owner: plan@.owner,
                files: plan@.files,
            }),
            r matches Err(e) ==> ({
                let i = astray(plan@.owner, shard_tensors(shards@), 0)->0;
                e matches Error::Config(ConfigIssue::NotInShard(n, f)) && n@ == plan@.owner[i].0 && f@
                    == plan@.files[plan@.owner[i].1 as int]
            }),
    {
        proof {
            use_type_invariant(&plan);
        }
        let ghost ov = plan@.owner;
        let ghost sv = shard_tensors(shards@);
        let mut i: usize = 0;
        while i < plan.owner.len()
            invariant
                i <= plan.owner@.len(),
                plan.wf(),
                ov == plan@.owner,
                sv == shard_tensors(shards@),
                shards@.len() == plan.files@.len(),
                astray(ov, sv, 0) == astray(ov, sv, i as int),
            decreases plan.owner@.len() - i,
        {
            let k: usize = plan.owner[i].1;
            assert(plan.owner@[i as int].1 < plan.files@.len());
            assert(ov[i as int] == (plan.owner@[i as int].0@, k));
            assert(plan@.files[k as int] == plan.files@[k as int]@);
            assert(sv[k as int] == shards@[k as int]@.tensors);
            if shards[k].get(plan.owner[i].0.as_str()).is_err() {
                return Err(
                    Error::Config(
                        ConfigIssue::NotInShard(plan.owner[i].0.clone(), plan.files[k].clone()),
                    ),
                );
            }
            i = i + 1;
        }
        Ok(Checkpoint { shards, owner: plan.owner, files: plan.files })
    }

    /// Number of shards backing this checkpoint.
    pub fn shard_count(&self) -> (n: usize)
        ensures
            n == self@.shards.len(),
    {
        self.shards.len()
    }

    /// The files opened, for reporting.
    pub fn files(&self) -> (files: &Vec<String>)
        ensures
            file_names(files@) == self@.files,
    {
        &self.files
    }

    /// Tensor count across all shards.
    pub fn len(&self) -> (n: usize)
        ensures
            n == self@.owner.len(),
    {
        self.owner.len()
    }

    /// Whether the checkpoint holds no tensors at all.
    pub fn is_empty(&self) -> (r: bool)
        ensures
            r == (self@.owner.len() == 0),
    {
        self.owner.len() == 0
    }

    /// Every tensor name, in sorted order.
    pub fn names(&self) -> (names: Vec<String>)
        ensures
            names@.len() == self@.owner.len(),
            forall|i: int| 0 <= i < names@.len() ==> (#[trigger] names@[i])@ == self@.owner[i].0,
            names_ascend(names@),
    {
        proof {
            use_type_invariant(self);
        }
        let mut out: Vec<String> = Vec::new();
        let mut i: usize = 0;
        while i < self.owner.len()
            invariant
                i <= self.owner@.len(),
                out@.len() == i,
                forall|k: int| 0 <= k < i ==> (#[trigger] out@[k])@ == owner_views(self.owner@)[k].0,
            decreases self.owner@.len() - i,
        {
            out.push(self.owner[i].0.clone());
            i = i + 1;
        }
        proof {
            let listed = self@.owner;
            assert forall|a: int, b: int|
                #![trigger out@[a], out@[b]]
                0 <= a < b < out@.len() implies name_before(out@[a]@, out@[b]@) by {
                assert(name_before(listed[a].0, listed[b].0));
            }
        }
        out
    }

    /// The shard that holds a tensor.
    pub fn shard_of(&self, name: &str) -> (r: Option<usize>)
        ensures
            match owner_index(self@.owner, name@, 0) {
                Some(i) => r == Some(self@.owner[i].1) && self@.owner[i].1 < self@.shards.len(),
                None => r is None,
            },
    {
        proof {
            use_type_invariant(self);
        }
        let ghost all = self@.owner;
        let mut i: usize = 0;
        while i < self.owner.len()
            invariant
                i <= self.owner@.len(),
                all == owner_views(self.owner@),
                self.wf(),
                owner_index(all, name@, 0) == owner_index(all, name@, i as int),
            decreases self.owner@.len() - i,
        {
            assert(all[i as int] == (self.owner@[i as int].0@, self.owner@[i as int].1));
            if str_eq(self.owner[i].0.as_str(), name) {
                return Some(self.owner[i].1);
            }
            i = i + 1;
        }
        None
    }

    /// Looks up a tensor's descriptor.
    pub fn get(&self, name: &str) -> (r: Result<&TensorView, Error>)
        ensures
            match self@.find(name@) {
                Some(t) => r matches Ok(v) && v@ == t && t.begin <= t.end && product_fits(t.shape),
                None => r matches Err(Error::MissingTensor(n)) && n@ == name@,
            },
    {
        match self.shard_of(name) {
            Some(k) => {
                assert(self@.shards[k as int] == self.shards@[k as int]@.tensors);
                self.shards[k].get(name)
            },
            None => Err(Error::MissingTensor(name.to_owned())),
        }
    }

    /// Whether the bytes of tensor payload can be counted.
    pub fn data_bytes_fit(&self) -> (yes: bool)
        ensures
            yes == (self@.listed_bytes(self@.owner.len() as int) <= usize::MAX),
    {
        let ghost c = self@;
        let mut n: usize = 0;
        let mut i: usize = 0;
        while i < self.owner.len()
            invariant
                i <= self.owner@.len(),
                c == self@,
                c.owner == owner_views(self.owner@),
                n == c.listed_bytes(i as int),
            decreases self.owner@.len() - i,
        {
            assert(c.owner[i as int].0 == self.owner@[i as int].0@);
            proof {
                lemma_listed_bytes(c, i + 1, c.owner.len() as int);
            }
            if let Ok(t) = self.get(self.owner[i].0.as_str()) {
                n = match n.checked_add(t.nbytes()) {
                    Some(n) => n,
                    None => {
                        return false;
                    },
                };
            }
            i = i + 1;
        }
        true
    }

    /// Bytes of tensor payload, excluding headers and shard padding.
    pub fn data_bytes(&self) -> (n: usize)
        requires
            self@.listed_bytes(self@.owner.len() as int) <= usize::MAX,
        ensures
            n == self@.listed_bytes(self@.owner.len() as int),
    {
        let ghost c = self@;
        let mut n: usize = 0;
        let mut i: usize = 0;
        while i < self.owner.len()
            invariant
                i <= self.owner@.len(),
                c == self@,
                c.owner == owner_views(self.owner@),
                n == c.listed_bytes(i as int),
                c.listed_bytes(c.owner.len() as int) <= usize::MAX,
            decreases self.owner@.len() - i,
        {
            assert(c.owner[i as int].0 == self.owner@[i as int].0@);
            proof {
                lemma_listed_bytes(c, i + 1, c.owner.len() as int);
            }
            if let Ok(t) = self.get(self.owner[i].0.as_str()) {
                n = n + t.nbytes();
            }
            i = i + 1;
        }
        n
    }

    /// One shard's tensors.
    pub fn shard(&self, k: usize) -> (st: &SafeTensors)
        requires
            k < self@.shards.len(),
        ensures
            st@.tensors == self@.shards[k as int],
    {
        &self.shards[k]
    }
}

proof fn lemma_single(owner: Seq<(Seq<char>, usize)>, tensors: Seq<TensorSpec>, i: int)
    requires
        0 <= i,
        owner == Seq::new(tensors.len(), |k: int| (tensors[k].name, 0usize)),
    ensures
        astray(owner, seq![tensors], i) is None,
    decreases owner.len() - i,
{
    if i < owner.len() {
        lemma_is_found(tensors, i, 0);
        lemma_single(owner, tensors, i + 1);
    }
}

proof fn lemma_is_found(tensors: Seq<TensorSpec>, at: int, i: int)
    requires
        0 <= i <= at < tensors.len(),
    ensures
        spec_index_of(tensors, tensors[at].name, i) is Some,
    decreases at - i,
{
    if tensors[i].name != tensors[at].name {
        lemma_is_found(tensors, at, i + 1);
    }
}

proof fn lemma_none_astray(owner: Seq<(Seq<char>, usize)>, shards: Seq<Seq<TensorSpec>>, i: int, k: int)
    requires
        0 <= i <= k < owner.len(),
        astray(owner, shards, i) is None,
    ensures
        spec_index_of(shards[owner[k].1 as int], owner[k].0, 0) is Some,
    decreases k - i,
{
    if i < k {
        lemma_none_astray(owner, shards, i + 1, k);
    }
}

/// Every tensor an assembled checkpoint lists can be looked up.
pub proof fn listed_tensors_are_found(c: CheckpointView, k: int)
    requires
        astray(c.owner, c.shards, 0) is None,
        0 <= k < c.owner.len(),
    ensures
        c.find(c.owner[k].0) is Some,
{
    lemma_owner_found(c.owner, k, 0);
    lemma_owner_index(c.owner, c.owner[k].0, 0);
    let i = owner_index(c.owner, c.owner[k].0, 0)->0;
    lemma_none_astray(c.owner, c.shards, 0, i);
}

proof fn lemma_owner_found(owner: Seq<(Seq<char>, usize)>, at: int, i: int)
    requires
        0 <= i <= at < owner.len(),
    ensures
        owner_index(owner, owner[at].0, i) is Some,
    decreases at - i,
{
    if owner[i].0 != owner[at].0 {
        lemma_owner_found(owner, at, i + 1);
    }
}

} // verus!

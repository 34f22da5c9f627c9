//! Exercise descriptors.

use vstd::prelude::*;
use vstd::string::*;
use crate::path::{dir_name, dir_name_of, join_path, path_joined};

verus! {

/// What an exercise definition says of its exercise, with the id that its
/// place in the lessons tree gives it.
#[derive(Debug, Clone)]
pub struct ExerciseMeta {
    pub id: String,
    pub title: String,
    pub difficulty: String,
    pub hint: Option<String>,
    pub timeout_secs: Option<u64>,
}

/// The mathematical content of an [`ExerciseMeta`].
pub struct ExerciseMetaModel {
    pub id: Seq<char>,
    pub title: Seq<char>,
    pub difficulty: Seq<char>,
    pub hint: Option<Seq<char>>,
    pub timeout_secs: Option<u64>,
}

impl View for ExerciseMeta {
    type V = ExerciseMetaModel;

    open spec fn view(&self) -> ExerciseMetaModel {
        ExerciseMetaModel {
            id: self.id@,
            title: self.title@,
            difficulty: self.difficulty@,
            hint: self.hint.deep_view(),
            timeout_secs: self.timeout_secs,
        }
    }
}

/// One exercise: its metadata and the files it is made of.
#[derive(Debug, Clone)]
pub struct Exercise {
    pub meta: ExerciseMeta,
    pub root: String,
    pub starter_rs: String,
    pub tests_rs: String,
    pub solution_rs: Option<String>,
    pub explanation_md: Option<String>,
}

/// The mathematical content of an [`Exercise`].
pub struct ExerciseModel {
    pub meta: ExerciseMetaModel,
    pub root: Seq<char>,
    pub starter_rs: Seq<char>,
    pub tests_rs: Seq<char>,
    pub solution_rs: Option<Seq<char>>,
    pub explanation_md: Option<Seq<char>>,
}

impl View for Exercise {
    type V = ExerciseModel;

    open spec fn view(&self) -> ExerciseModel {
        ExerciseModel {
            meta: self.meta@,
            root: self.root@,
            starter_rs: self.starter_rs@,
            tests_rs: self.tests_rs@,
            solution_rs: self.solution_rs.deep_view(),
            explanation_md: self.explanation_md.deep_view(),
        }
    }
}

/// The mathematical contents of the entries of a catalog.
pub open spec fn models(all: Seq<Exercise>) -> Seq<ExerciseModel> {
    Seq::new(all.len(), |i: int| all[i]@)
}

/// The directory under the data directory that holds the working copies.
pub open spec fn working_dir_path(data_dir: Seq<char>) -> Seq<char> {
    path_joined(data_dir, "work"@)
}

/// The learner's working copy of the exercise `id`.
pub open spec fn working_file_path(data_dir: Seq<char>, id: Seq<char>) -> Seq<char> {
    path_joined(path_joined(working_dir_path(data_dir), dir_name(id)), "lib.rs"@)
}

impl Exercise {
    /// The directory that holds all working copies, under `data_dir`.
    pub fn working_dir(data_dir: &str) -> (dir: String)
        ensures
            dir@ == working_dir_path(data_dir@),
    {
        join_path(data_dir, "work")
    }

    /// The file that the learner edits for this exercise, under `data_dir`.
    pub fn working_file(&self, data_dir: &str) -> (file: String)
        ensures
            file@ == working_file_path(data_dir@, self.meta.id@),
    {
        let work = Exercise::working_dir(data_dir);
        let name = dir_name_of(self.meta.id.as_str());
        let own = join_path(work.as_str(), name.as_str());
        join_path(own.as_str(), "lib.rs")
    }
}

} // verus!

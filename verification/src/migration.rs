//! What a migration engine asks of two data models: the steps that lead
//! from the one to the other.

use crate::datamodel::Datamodel;
use vstd::prelude::*;

verus! {

/// One change that leads from a data model to the next.
#[derive(Debug, Clone, PartialEq, Eq)]
pub enum MigrationStep {
    CreateModel { name: String },
    UpdateModel { name: String },
    DeleteModel { name: String },
    CreateField { model: String, name: String },
    UpdateField { model: String, name: String },
    DeleteField { model: String, name: String },
    CreateEnum { name: String },
    UpdateEnum { name: String },
    DeleteEnum { name: String },
}

/// Finds the steps that lead from one data model to another.
pub trait DataModelMigrationStepsInferrer {
    fn infer(previous: Datamodel, next: Datamodel) -> Vec<MigrationStep>;
}

/// The inferrer that takes every data model as it is: it finds no step.
#[allow(dead_code)]
pub struct DataModelMigrationStepsInferrerImpl {
    previous: Datamodel,
    next: Datamodel,
}

impl DataModelMigrationStepsInferrer for DataModelMigrationStepsInferrerImpl {
    fn infer(previous: Datamodel, next: Datamodel) -> (steps: Vec<MigrationStep>)
        ensures
            steps@ == Seq::<MigrationStep>::empty(),
    {
        let inferrer = DataModelMigrationStepsInferrerImpl { previous, next };
        inferrer.infer_internal()
    }
}

impl DataModelMigrationStepsInferrerImpl {
    fn infer_internal(&self) -> (steps: Vec<MigrationStep>)
        ensures
            steps@ == Seq::<MigrationStep>::empty(),
    {
        Vec::new()
    }
}

} // verus!

//! The record produced for one identifier, and the envelope that carries it
//! to the output sink together with the batch-wide progress counters.

use vstd::prelude::*;

verus! {

/// The structured fields extracted from one fetched parcel page. The batch
/// engine treats a value of this type as an inert payload.
#[derive(Clone, Debug)]
pub struct ParcelData {
    pub parcel_code: String,
    pub owner_name: String,
    pub owner_cpf_or_cnpj: String,
    pub denomination: String,
    pub area: String,
    pub situation_parcel: String,
    pub technical_manager: String,
    pub situation_area: String,
    pub city_uf: String,
    pub registry_office: String,
    pub cns: String,
    pub registration: String,
    pub registration_situation: String,
    pub code_incra: String,
    pub property_type: String,
    pub date_of_entry: String,
    pub rt_document: String,
}

/// One unit handed to the output sink: a completed record plus the fixed
/// batch size and the value of the shared progress counter at the moment the
/// record completed.
#[derive(Clone, Debug)]
pub struct ParcelResponse {
    pub data: ParcelData,
    pub total_count: usize,
    pub current_count: usize,
}

} // verus!

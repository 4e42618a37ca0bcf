//! Account details that carry no amounts.
use vstd::prelude::*;

verus! {

/// What a ledger entry comes from.
#[derive(Debug)]
pub enum LedgerDetail {
    Match(MatchDetail),
    Transfer(TransferDetail),
    Fee(serde_json::Value),
    Rebate(serde_json::Value),
    Conversion(serde_json::Value),
}

/// The name of the kind of a ledger entry.
pub open spec fn ledger_detail_name(d: LedgerDetail) -> Seq<char> {
    match d {
        LedgerDetail::Match(_) => "match"@,
        LedgerDetail::Transfer(_) => "transfer"@,
        LedgerDetail::Fee(_) => "fee"@,
        LedgerDetail::Rebate(_) => "rebate"@,
        LedgerDetail::Conversion(_) => "conversion"@,
    }
}

impl LedgerDetail {
    /// The name of the kind of entry, as the exchange writes it.
    pub fn variant_name(&self) -> (res: &str)
        ensures
            res@ == ledger_detail_name(*self),
    {
        match self {
            LedgerDetail::Match(_) => "match",
            LedgerDetail::Transfer(_) => "transfer",
            LedgerDetail::Fee(_) => "fee",
            LedgerDetail::Rebate(_) => "rebate",
            LedgerDetail::Conversion(_) => "conversion",
        }
    }
}

/// The trade a ledger entry comes from.
#[derive(Debug)]
pub struct MatchDetail {
    pub order_id: String,
    pub product_id: String,
    pub trade_id: String,
}

/// The transfer a ledger entry comes from.
#[derive(Debug)]
pub struct TransferDetail {
    pub transfer_id: String,
    pub transfer_type: String,
}

/// Details of a deposit.
#[derive(Debug)]
pub struct DepositDetails {
    pub crypto_address: String,
    pub destination_tag: Option<String>,
    pub coinbase_account_id: String,
    pub destination_tag_name: String,
    pub crypto_transaction_id: String,
    pub coinbase_transaction_id: String,
    pub crypto_transaction_hash: String,
}

/// How to deposit by wire.
#[derive(Debug)]
pub struct WireDepositInformation {
    pub account_number: Option<String>,
    pub routing_number: String,
    pub bank_name: String,
    pub bank_address: String,
    pub bank_country: BankCountry,
    pub account_name: String,
    pub account_address: String,
    pub reference: String,
}

/// How to deposit by SWIFT.
#[derive(Debug)]
pub struct SwiftDepositInformation {
    pub account_number: String,
    pub bank_name: String,
    pub bank_address: String,
    pub bank_country: BankCountry,
    pub account_name: String,
    pub account_address: String,
    pub reference: String,
}

/// How to deposit by SEPA.
#[derive(Debug)]
pub struct SepaDepositInformation {
    pub iban: String,
    pub swift: String,
    pub bank_name: String,
    pub bank_address: String,
    pub bank_country: BankCountry,
    pub account_name: String,
    pub account_address: String,
    pub reference: String,
}

/// How to deposit in the UK.
#[derive(Debug)]
pub struct UKDepositInformation {
    pub sort_code: String,
    pub account_number: String,
    pub bank_name: String,
    pub account_name: String,
    pub reference: String,
}

/// A bank's country.
#[derive(Debug)]
pub struct BankCountry {
    pub code: String,
    pub name: String,
}

} // verus!

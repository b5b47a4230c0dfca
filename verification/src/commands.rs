//! Data carriers of the hub's command surface that sit next to the
//! supervision core: the fixed symbol catalog and the plain
//! request/result records of the tick-data collaborators. The
//! retrieval and export work itself is done by external collaborators;
//! these records only carry their plain values.

use vstd::prelude::*;

verus! {

/// One detected trading terminal installation.
#[derive(Debug)]
pub struct TerminalInfo {
    pub name: String,
    pub data_path: String,
    pub custom_symbols_path: String,
    pub is_default: bool,
}

/// One entry of the fixed symbol catalog.
#[derive(Debug)]
pub struct SymbolInfo {
    pub name: String,
    pub display_name: String,
    pub category: String,
}

/// The available history range of one symbol.
#[derive(Debug)]
pub struct DateRange {
    pub start: String,
    pub end: String,
}

/// A tick-data request: a symbol and an inclusive date range.
#[derive(Debug)]
pub struct DownloadParams {
    pub symbol: String,
    pub start_date: String,
    pub end_date: String,
}

/// What a finished download reports.
#[derive(Debug)]
pub struct DownloadResult {
    pub success: bool,
    pub tick_count: u64,
    pub message: String,
    pub output_path: Option<String>,
}

/// The fixed symbol catalog: name, display name, category.
pub open spec fn spec_symbol_table() -> Seq<(Seq<char>, Seq<char>, Seq<char>)> {
    seq![
        ("EURUSD"@, "EUR/USD"@, "Forex Major"@),
        ("GBPUSD"@, "GBP/USD"@, "Forex Major"@),
        ("USDJPY"@, "USD/JPY"@, "Forex Major"@),
        ("USDCHF"@, "USD/CHF"@, "Forex Major"@),
        ("AUDUSD"@, "AUD/USD"@, "Forex Major"@),
        ("USDCAD"@, "USD/CAD"@, "Forex Major"@),
        ("NZDUSD"@, "NZD/USD"@, "Forex Major"@),
        ("XAUUSD"@, "Gold (XAU/USD)"@, "Metals"@),
        ("XAGUSD"@, "Silver (XAG/USD)"@, "Metals"@),
    ]
}

/// The catalog as served to callers, in its fixed order.
pub fn get_available_symbols() -> (r: Vec<SymbolInfo>)
    ensures
        r@.len() == spec_symbol_table().len(),
        forall|i: int|
            0 <= i < r@.len() ==> {
                &&& (#[trigger] r@[i]).name@ == spec_symbol_table()[i].0
                &&& r@[i].display_name@ == spec_symbol_table()[i].1
                &&& r@[i].category@ == spec_symbol_table()[i].2
            },
{
    let mut r: Vec<SymbolInfo> = Vec::new();
    r.push(symbol("EURUSD", "EUR/USD", "Forex Major"));
    r.push(symbol("GBPUSD", "GBP/USD", "Forex Major"));
    r.push(symbol("USDJPY", "USD/JPY", "Forex Major"));
    r.push(symbol("USDCHF", "USD/CHF", "Forex Major"));
    r.push(symbol("AUDUSD", "AUD/USD", "Forex Major"));
    r.push(symbol("USDCAD", "USD/CAD", "Forex Major"));
    r.push(symbol("NZDUSD", "NZD/USD", "Forex Major"));
    r.push(symbol("XAUUSD", "Gold (XAU/USD)", "Metals"));
    r.push(symbol("XAGUSD", "Silver (XAG/USD)", "Metals"));
    r
}

fn symbol(name: &str, display_name: &str, category: &str) -> (r: SymbolInfo)
    ensures
        r.name@ == name@,
        r.display_name@ == display_name@,
        r.category@ == category@,
{
    SymbolInfo {
        name: name.to_owned(),
        display_name: display_name.to_owned(),
        category: category.to_owned(),
    }
}

} // verus!

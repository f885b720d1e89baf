use lookthrough::analyze::{analyze_exposure, calculate_ter, AnalyzeError};
use lookthrough::derivation::{derive_exposures, normalize_sector, DeriveError, LookupTable, SectorError};
use lookthrough::resolve::{resolve, ResolveError};
use lookthrough::security::{Exposure, Portfolio, Registry, SecurityRecord};
use lookthrough::weights::WEIGHT_ONE;

/// One whole unit (1.0) in the fixed-point weight scale.
const ONE: u64 = WEIGHT_ONE;

fn record(isin: &str, name: &str, ter: u64) -> SecurityRecord {
    SecurityRecord {
        isin: isin.to_string(),
        name: name.to_string(),
        ter,
        holding: String::new(),
        holding_weight: 0,
        sector: String::new(),
        sector_weight: 0,
        country: String::new(),
        country_weight: 0,
        region: String::new(),
        region_weight: 0,
    }
}

fn with_holding(mut r: SecurityRecord, label: &str, w: u64) -> SecurityRecord {
    r.holding = label.to_string();
    r.holding_weight = w;
    r
}

fn with_sector(mut r: SecurityRecord, label: &str, w: u64) -> SecurityRecord {
    r.sector = label.to_string();
    r.sector_weight = w;
    r
}

fn with_country(mut r: SecurityRecord, label: &str, w: u64) -> SecurityRecord {
    r.country = label.to_string();
    r.country_weight = w;
    r
}

fn portfolio(entries: &[(&str, u64)]) -> Portfolio {
    let mut p = Portfolio::new();
    for (isin, w) in entries {
        p.insert(&isin.to_string(), *w);
    }
    p
}

#[test]
fn empty_holdings_resolve_to_own_map_scaled() {
    let mut reg = Registry::new();
    reg.insert_record(&with_sector(record("X1", "Fund", 0), "Tech", 400_000));
    let m = resolve(&reg, Exposure::Sector, &"X1".to_string(), 500_000).unwrap();
    assert_eq!(m.get(&"Tech".to_string()), Some(200_000));
    assert_eq!(m.len(), 1);
}

#[test]
fn two_level_fund_of_funds_expands() {
    let mut reg = Registry::new();
    // A holds 50% of B and has a direct sector entry of its own.
    reg.insert_record(&with_holding(record("A", "Outer", 0), "B", 500_000));
    reg.insert_record(&with_sector(record("A", "", 0), "Financials", 300_000));
    reg.insert_record(&with_sector(record("B", "Inner", 0), "Tech", ONE));
    let m = resolve(&reg, Exposure::Sector, &"A".to_string(), ONE).unwrap();
    assert_eq!(m.get(&"Tech".to_string()), Some(500_000));
    assert_eq!(m.get(&"Financials".to_string()), Some(300_000));
    assert_eq!(m.len(), 2);
}

#[test]
fn holding_dimension_skips_expanded_funds() {
    let mut reg = Registry::new();
    reg.insert_record(&with_holding(record("A", "Outer", 0), "B", 500_000));
    reg.insert_record(&with_holding(record("B", "Inner", 0), "AAPL", 400_000));
    let m = resolve(&reg, Exposure::Holding, &"A".to_string(), ONE).unwrap();
    // B itself is expanded, not reported; its terminal holding is scaled.
    assert_eq!(m.get(&"B".to_string()), None);
    assert_eq!(m.get(&"AAPL".to_string()), Some(200_000));
}

#[test]
fn unknown_isin_fails_resolution() {
    let reg = Registry::new();
    let r = resolve(&reg, Exposure::Sector, &"NOPE".to_string(), ONE);
    assert!(matches!(r, Err(ResolveError::UnknownSecurity)));
}

#[test]
fn cyclic_holdings_are_reported() {
    let mut reg = Registry::new();
    reg.insert_record(&with_holding(record("A", "", 0), "B", 500_000));
    reg.insert_record(&with_holding(record("B", "", 0), "A", 500_000));
    let r = resolve(&reg, Exposure::Sector, &"A".to_string(), ONE);
    assert!(matches!(r, Err(ResolveError::CyclicHolding)));
}

#[test]
fn derivation_sums_countries_into_region() {
    let mut reg = Registry::new();
    reg.insert_record(&with_country(record("X1", "Fund", 0), "France", 600_000));
    reg.insert_record(&with_country(record("X1", "", 0), "Germany", 400_000));
    let mut region_table = LookupTable::new();
    region_table.push_pair(&"France".to_string(), &"Europe".to_string());
    region_table.push_pair(&"Germany".to_string(), &"Europe".to_string());
    let mut market_table = LookupTable::new();
    market_table.push_pair(&"France".to_string(), &"Developed".to_string());
    market_table.push_pair(&"Germany".to_string(), &"Developed".to_string());
    let reg = derive_exposures(reg, &region_table, &market_table).unwrap();
    let sec = reg.lookup(&"X1".to_string()).unwrap();
    assert_eq!(sec.get_exposure(Exposure::Region).get(&"Europe".to_string()), Some(ONE));
    assert_eq!(sec.get_exposure(Exposure::Market).get(&"Developed".to_string()), Some(ONE));
}

#[test]
fn derivation_fails_on_unmapped_country() {
    let mut reg = Registry::new();
    reg.insert_record(&with_country(record("X1", "Fund", 0), "Atlantis", 500_000));
    let region_table = LookupTable::new();
    let market_table = LookupTable::new();
    match derive_exposures(reg, &region_table, &market_table) {
        Err(DeriveError::UnmappedCountry { country, isin }) => {
            assert_eq!(country, "Atlantis");
            assert_eq!(isin, "X1");
        },
        _ => panic!("expected an unmapped country"),
    }
}

#[test]
fn derivation_keeps_explicit_region() {
    let mut reg = Registry::new();
    let mut r = with_country(record("X1", "Fund", 0), "France", 500_000);
    r.region = "Overridden".to_string();
    r.region_weight = 700_000;
    reg.insert_record(&r);
    let mut region_table = LookupTable::new();
    region_table.push_pair(&"France".to_string(), &"Europe".to_string());
    let mut market_table = LookupTable::new();
    market_table.push_pair(&"France".to_string(), &"Developed".to_string());
    let reg = derive_exposures(reg, &region_table, &market_table).unwrap();
    let sec = reg.lookup(&"X1".to_string()).unwrap();
    assert_eq!(sec.get_exposure(Exposure::Region).get(&"Overridden".to_string()), Some(700_000));
    assert_eq!(sec.get_exposure(Exposure::Region).get(&"Europe".to_string()), None);
}

#[test]
fn derivation_fails_on_excessive_country_weights() {
    let mut reg = Registry::new();
    reg.insert_record(&with_country(record("X1", "Fund", 0), "France", ONE));
    reg.insert_record(&with_country(record("X1", "", 0), "Germany", ONE));
    let mut region_table = LookupTable::new();
    region_table.push_pair(&"France".to_string(), &"Europe".to_string());
    region_table.push_pair(&"Germany".to_string(), &"Europe".to_string());
    let market_table = LookupTable::new();
    match derive_exposures(reg, &region_table, &market_table) {
        Err(DeriveError::ExcessWeight { isin }) => assert_eq!(isin, "X1"),
        _ => panic!("expected excessive derived weight"),
    }
}

#[test]
fn analysis_closes_to_one_hundred_percent() {
    let mut reg = Registry::new();
    reg.insert_record(&with_sector(record("X1", "Fund", 0), "Tech", 500_000));
    let p = portfolio(&[("X1", ONE)]);
    let out = analyze_exposure(&reg, &p, Exposure::Sector).unwrap();
    assert_eq!(
        out,
        vec![("Tech".to_string(), 50_000_000), ("Unknown".to_string(), 50_000_000)]
    );
    let total: u64 = out.iter().map(|(_, v)| *v).sum();
    assert_eq!(total, 100_000_000);
}

#[test]
fn analysis_sorts_descending_with_stable_ties() {
    let mut reg = Registry::new();
    reg.insert_record(&with_sector(record("X1", "Fund", 0), "Alpha", 300_000));
    reg.insert_record(&with_sector(record("X1", "", 0), "Beta", 300_000));
    reg.insert_record(&with_sector(record("X1", "", 0), "Gamma", 400_000));
    let p = portfolio(&[("X1", ONE)]);
    let out = analyze_exposure(&reg, &p, Exposure::Sector).unwrap();
    assert_eq!(
        out,
        vec![
            ("Gamma".to_string(), 40_000_000),
            ("Alpha".to_string(), 30_000_000),
            ("Beta".to_string(), 30_000_000),
        ]
    );
}

#[test]
fn analysis_collects_unknown_positions_and_fails() {
    let mut reg = Registry::new();
    reg.insert_record(&with_sector(record("X1", "Fund", 0), "Tech", 500_000));
    let p = portfolio(&[("X1", 500_000), ("GHOST", 500_000)]);
    match analyze_exposure(&reg, &p, Exposure::Sector) {
        Err(AnalyzeError::Positions(errs)) => {
            assert_eq!(errs, vec![("GHOST".to_string(), ResolveError::UnknownSecurity)]);
        },
        _ => panic!("expected collected position errors"),
    }
}

#[test]
fn analysis_fails_beyond_one_hundred_percent() {
    let mut reg = Registry::new();
    reg.insert_record(&with_sector(record("X1", "Fund", 0), "Tech", 800_000));
    reg.insert_record(&with_sector(record("X1", "", 0), "Energy", 900_000));
    let p = portfolio(&[("X1", ONE)]);
    match analyze_exposure(&reg, &p, Exposure::Sector) {
        Err(AnalyzeError::OverAllocation(total)) => assert_eq!(total, 170_000_000u128),
        _ => panic!("expected over-allocation"),
    }
}

#[test]
fn analysis_is_deterministic_across_runs() {
    let mut reg = Registry::new();
    reg.insert_record(&with_holding(record("A", "Outer", 0), "B", 500_000));
    reg.insert_record(&with_sector(record("A", "", 0), "Financials", 300_000));
    reg.insert_record(&with_sector(record("B", "Inner", 0), "Tech", 600_000));
    let p = portfolio(&[("A", 700_000), ("B", 300_000)]);
    let first = analyze_exposure(&reg, &p, Exposure::Sector).unwrap();
    let second = analyze_exposure(&reg, &p, Exposure::Sector).unwrap();
    assert_eq!(first, second);
}

#[test]
fn blended_cost_ratio_is_exact() {
    let mut reg = Registry::new();
    reg.insert_record(&record("X1", "Cheap", 1_000));
    reg.insert_record(&record("X2", "Dear", 2_000));
    let p = portfolio(&[("X1", 700_000), ("X2", 300_000)]);
    // 0.001 * 0.7 + 0.002 * 0.3 == 0.0013
    assert_eq!(calculate_ter(&reg, &p), Ok(1_300));
}

#[test]
fn cost_ratio_fails_on_first_unknown_isin() {
    let mut reg = Registry::new();
    reg.insert_record(&record("X1", "Fund", 1_000));
    let p = portfolio(&[("X1", 500_000), ("GHOST", 500_000)]);
    assert_eq!(calculate_ter(&reg, &p), Err(ResolveError::UnknownSecurity));
}

#[test]
fn records_sharing_an_isin_merge() {
    let mut reg = Registry::new();
    let r1 = with_sector(
        with_holding(record("X1", "Fund", 2_200), "AAPL", 40_000),
        "Tech",
        500_000,
    );
    reg.insert_record(&r1);
    // A later sparse row: blank name keeps the old one, new labels accumulate.
    let r2 = with_sector(with_holding(record("X1", "", 0), "MSFT", 30_000), "Health", 200_000);
    reg.insert_record(&r2);
    let sec = reg.lookup(&"X1".to_string()).unwrap();
    assert_eq!(sec.name, "Fund");
    assert_eq!(sec.ter, 2_200);
    let h = sec.get_exposure(Exposure::Holding);
    assert_eq!(h.get(&"AAPL".to_string()), Some(40_000));
    assert_eq!(h.get(&"MSFT".to_string()), Some(30_000));
    let s = sec.get_exposure(Exposure::Sector);
    assert_eq!(s.get(&"Tech".to_string()), Some(500_000));
    assert_eq!(s.get(&"Health".to_string()), Some(200_000));
}

#[test]
fn repeated_label_takes_latest_weight() {
    let mut reg = Registry::new();
    reg.insert_record(&with_sector(record("X1", "Fund", 0), "Tech", 500_000));
    reg.insert_record(&with_sector(record("X1", "", 0), "Tech", 700_000));
    let sec = reg.lookup(&"X1".to_string()).unwrap();
    assert_eq!(sec.get_exposure(Exposure::Sector).get(&"Tech".to_string()), Some(700_000));
}

#[test]
fn portfolio_keeps_first_weight_of_repeated_isin() {
    let mut p = Portfolio::new();
    assert!(p.insert(&"X1".to_string(), 400_000));
    assert!(!p.insert(&"X1".to_string(), 600_000));
    assert_eq!(p.len(), 1);
    assert_eq!(p.positions[0].1, 400_000);
}

#[test]
fn sector_labels_normalize() {
    let sectors = vec!["Technology".to_string(), "Financials".to_string()];
    let mut synonyms = LookupTable::new();
    synonyms.push_pair(&"Information Technology".to_string(), &"Technology".to_string());
    assert_eq!(
        normalize_sector(&"Technology".to_string(), &sectors, &synonyms),
        Ok("Technology".to_string())
    );
    assert_eq!(
        normalize_sector(&"Information Technology".to_string(), &sectors, &synonyms),
        Ok("Technology".to_string())
    );
    assert_eq!(normalize_sector(&"".to_string(), &sectors, &synonyms), Ok("".to_string()));
    match normalize_sector(&"Bogus".to_string(), &sectors, &synonyms) {
        Err(SectorError::UnmappedSector { sector }) => assert_eq!(sector, "Bogus"),
        _ => panic!("expected an unmapped sector"),
    }
}

#[test]
fn three_levels_of_nesting_multiply_weights() {
    let mut reg = Registry::new();
    reg.insert_record(&with_holding(record("A", "", 0), "B", 500_000));
    reg.insert_record(&with_holding(record("B", "", 0), "C", 400_000));
    reg.insert_record(&with_sector(record("C", "", 0), "Tech", ONE));
    let m = resolve(&reg, Exposure::Sector, &"A".to_string(), ONE).unwrap();
    assert_eq!(m.get(&"Tech".to_string()), Some(200_000));
}

#[test]
fn scaling_truncates_toward_zero() {
    let mut reg = Registry::new();
    reg.insert_record(&with_sector(record("X1", "", 0), "Tech", 333_333));
    let m = resolve(&reg, Exposure::Sector, &"X1".to_string(), 500_000).unwrap();
    // 333_333 * 500_000 / 1_000_000, truncated.
    assert_eq!(m.get(&"Tech".to_string()), Some(166_666));
}

#[test]
fn full_coverage_needs_no_residual() {
    let mut reg = Registry::new();
    reg.insert_record(&with_sector(record("X1", "", 0), "Tech", ONE));
    let p = portfolio(&[("X1", ONE)]);
    let out = analyze_exposure(&reg, &p, Exposure::Sector).unwrap();
    assert_eq!(out, vec![("Tech".to_string(), 100_000_000)]);
}

#[test]
fn region_analysis_after_derivation() {
    let mut reg = Registry::new();
    reg.insert_record(&with_country(record("X1", "", 0), "France", 600_000));
    reg.insert_record(&with_country(record("X1", "", 0), "Germany", 300_000));
    let mut region_table = LookupTable::new();
    region_table.push_pair(&"France".to_string(), &"Europe".to_string());
    region_table.push_pair(&"Germany".to_string(), &"Europe".to_string());
    let mut market_table = LookupTable::new();
    market_table.push_pair(&"France".to_string(), &"Developed".to_string());
    market_table.push_pair(&"Germany".to_string(), &"Developed".to_string());
    let reg = derive_exposures(reg, &region_table, &market_table).unwrap();
    let p = portfolio(&[("X1", ONE)]);
    let out = analyze_exposure(&reg, &p, Exposure::Region).unwrap();
    assert_eq!(
        out,
        vec![("Europe".to_string(), 90_000_000), ("Unknown".to_string(), 10_000_000)]
    );
}

#[test]
fn holding_analysis_mixes_terminal_and_expanded() {
    let mut reg = Registry::new();
    reg.insert_record(&with_holding(record("A", "", 0), "B", 600_000));
    reg.insert_record(&with_holding(record("A", "", 0), "AAPL", 200_000));
    reg.insert_record(&with_holding(record("B", "", 0), "MSFT", 500_000));
    let p = portfolio(&[("A", ONE)]);
    let out = analyze_exposure(&reg, &p, Exposure::Holding).unwrap();
    // B expands into MSFT (0.6 * 0.5); AAPL stays terminal.
    assert_eq!(
        out,
        vec![
            ("MSFT".to_string(), 30_000_000),
            ("AAPL".to_string(), 20_000_000),
            ("Unknown".to_string(), 50_000_000),
        ]
    );
}

#[test]
fn exposure_dimensions_enumerate_in_order() {
    let all = Exposure::all();
    assert_eq!(
        all,
        vec![
            Exposure::Holding,
            Exposure::Sector,
            Exposure::Country,
            Exposure::Region,
            Exposure::Market,
        ]
    );
    assert_eq!(Exposure::Sector.label(), "Sector");
}

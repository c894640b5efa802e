//! The asset catalogue as it is configured: sites, and assets that name
//! their site.  Loading resolves each asset's site and checks the
//! configuration invariants, so that everything downstream can rely on them.

use vstd::prelude::*;
use crate::allocator::{all_wf, MAX_ASSETS};
use crate::model::Asset;
use crate::physics::FULL_PCT;

verus! {

/// A configured site.
#[derive(Debug)]
pub struct SiteCfg {
    pub id: u128,
    pub name: String,
    pub location: String,
}

/// A configured asset.
#[derive(Debug)]
pub struct AssetCfg {
    pub id: u128,
    pub site_id: u128,
    pub name: String,
    pub capacity_mwhr: i64,
    pub max_mw: i64,
    pub min_mw: i64,
    pub min_soc_pct: i64,
    pub max_soc_pct: i64,
    pub efficiency: i64,
    pub ramp_rate_mw_per_min: i64,
}

/// The configured catalogue.
#[derive(Debug)]
pub struct AssetsFile {
    pub sites: Vec<SiteCfg>,
    pub assets: Vec<AssetCfg>,
}

/// Why a catalogue cannot be used.
#[derive(Clone, Copy, Debug, PartialEq, Eq, Structural)]
pub enum CatalogueError {
    /// There are more assets than `MAX_ASSETS`.
    TooManyAssets,
    /// The asset at this place names a site that is not configured.
    SiteNotFound(usize),
    /// The asset at this place breaks a configuration invariant.
    InvalidAsset(usize),
}

/// The lower bound of the charge band where none is configured: 0 %.
pub fn default_min_soc_pct() -> (pct: i64)
    ensures
        pct == 0,
{
    0
}

/// The upper bound of the charge band where none is configured: 100 %.
pub fn default_max_soc_pct() -> (pct: i64)
    ensures
        pct == FULL_PCT,
{
    FULL_PCT
}

/// The place of the last of the first `n` sites that has identifier `id`.
pub open spec fn site_place(sites: Seq<SiteCfg>, id: u128, n: nat) -> Option<int>
    decreases n,
{
    if n == 0 {
        None
    } else if sites[n - 1].id == id {
        Some(n - 1)
    } else {
        site_place(sites, id, (n - 1) as nat)
    }
}

/// `asset` is the configured asset `cfg` at `site`.
pub open spec fn is_resolved(cfg: &AssetCfg, site: &SiteCfg, asset: &Asset) -> bool {
    &&& asset.id == cfg.id
    &&& asset.site_id == cfg.site_id
    &&& asset.site_name@ == site.name@
    &&& asset.name@ == cfg.name@
    &&& asset.location@ == site.location@
    &&& asset.capacity_mwhr == cfg.capacity_mwhr
    &&& asset.max_mw == cfg.max_mw
    &&& asset.min_mw == cfg.min_mw
    &&& asset.min_soc_pct == cfg.min_soc_pct
    &&& asset.max_soc_pct == cfg.max_soc_pct
    &&& asset.efficiency == cfg.efficiency
    &&& asset.ramp_rate_mw_per_min == cfg.ramp_rate_mw_per_min
}

/// The limits of `cfg` meet the configuration invariants.
pub open spec fn cfg_valid(cfg: &AssetCfg) -> bool {
    (Asset {
        id: cfg.id,
        site_id: cfg.site_id,
        site_name: cfg.name,
        name: cfg.name,
        location: cfg.name,
        capacity_mwhr: cfg.capacity_mwhr,
        max_mw: cfg.max_mw,
        min_mw: cfg.min_mw,
        min_soc_pct: cfg.min_soc_pct,
        max_soc_pct: cfg.max_soc_pct,
        efficiency: cfg.efficiency,
        ramp_rate_mw_per_min: cfg.ramp_rate_mw_per_min,
    }).wf()
}

/// What is wrong with the asset at place `i`, if anything: its site is
/// looked up before its limits are checked.
pub open spec fn asset_fault(file: &AssetsFile, i: int) -> Option<CatalogueError> {
    if site_place(file.sites@, file.assets[i].site_id, file.sites@.len()) is None {
        Some(CatalogueError::SiteNotFound(i as usize))
    } else if !cfg_valid(&file.assets[i]) {
        Some(CatalogueError::InvalidAsset(i as usize))
    } else {
        None
    }
}

/// The last site with identifier `id`.
fn find_site(sites: &Vec<SiteCfg>, id: u128) -> (place: Option<usize>)
    ensures
        match place {
            Some(k) => k < sites.len() && site_place(sites@, id, sites@.len()) == Some(k as int),
            None => site_place(sites@, id, sites@.len()) is None,
        },
{
    let mut n: usize = sites.len();
    while n > 0
        invariant
            n <= sites.len(),
            site_place(sites@, id, sites@.len()) == site_place(sites@, id, n as nat),
        decreases n,
    {
        if sites[n - 1].id == id {
            return Some(n - 1);
        }
        n -= 1;
    }
    None
}

/// The assets of a configured catalogue, in the order configured: each with
/// the name and location of its site, each checked against the configuration
/// invariants.  The first asset that is at fault fails the whole catalogue.
pub fn load_assets(file: &AssetsFile) -> (outcome: Result<Vec<Asset>, CatalogueError>)
    ensures
        match outcome {
            Ok(assets) => {
                &&& assets.len() == file.assets.len()
                &&& assets.len() <= MAX_ASSETS
                &&& all_wf(assets@)
                &&& forall|i: int|
                    0 <= i < assets.len() ==> asset_fault(file, i) is None && is_resolved(
                        &file.assets[i],
                        &file.sites[site_place(
                            file.sites@,
                            file.assets[i].site_id,
                            file.sites@.len(),
                        )->0],
                        &#[trigger] assets[i],
                    )
            },
            Err(CatalogueError::TooManyAssets) => file.assets.len() > MAX_ASSETS,
            Err(fault) => {
                &&& file.assets.len() <= MAX_ASSETS
                &&& exists|i: int|
                    0 <= i < file.assets.len() && #[trigger] asset_fault(file, i) == Some(fault)
                        && forall|j: int| 0 <= j < i ==> (#[trigger] asset_fault(file, j)) is None
            },
        },
{
    if file.assets.len() > MAX_ASSETS {
        return Err(CatalogueError::TooManyAssets);
    }
    let mut assets: Vec<Asset> = Vec::new();
    let mut i: usize = 0;
    while i < file.assets.len()
        invariant
            file.assets.len() <= MAX_ASSETS,
            i <= file.assets.len(),
            assets.len() == i,
            all_wf(assets@),
            forall|j: int| 0 <= j < i ==> (#[trigger] asset_fault(file, j)) is None,
            forall|j: int|
                0 <= j < i ==> is_resolved(
                    &file.assets[j],
                    &file.sites[site_place(
                        file.sites@,
                        file.assets[j].site_id,
                        file.sites@.len(),
                    )->0],
                    &#[trigger] assets[j],
                ),
        decreases file.assets.len() - i,
    {
        let cfg: &AssetCfg = &file.assets[i];
        let site: &SiteCfg = match find_site(&file.sites, cfg.site_id) {
            Some(k) => &file.sites[k],
            None => {
                assert(asset_fault(file, i as int) == Some(CatalogueError::SiteNotFound(i)));
                return Err(CatalogueError::SiteNotFound(i));
            },
        };
        let asset = Asset {
            id: cfg.id,
            site_id: cfg.site_id,
            site_name: site.name.clone(),
            name: cfg.name.clone(),
            location: site.location.clone(),
            capacity_mwhr: cfg.capacity_mwhr,
            max_mw: cfg.max_mw,
            min_mw: cfg.min_mw,
            min_soc_pct: cfg.min_soc_pct,
            max_soc_pct: cfg.max_soc_pct,
            efficiency: cfg.efficiency,
            ramp_rate_mw_per_min: cfg.ramp_rate_mw_per_min,
        };
        if !asset.is_valid() {
            assert(asset_fault(file, i as int) == Some(CatalogueError::InvalidAsset(i)));
            return Err(CatalogueError::InvalidAsset(i));
        }
        assert(asset_fault(file, i as int) is None);
        let ghost before = assets@;
        assets.push(asset);
        proof {
            assert forall|j: int| 0 <= j < assets.len() implies (#[trigger] assets@[j]).wf() by {
                if j < i {
                    assert(before[j].wf());
                }
            }
        }
        i += 1;
    }
    Ok(assets)
}

/// The place of the first of the sites from place `from` on that has
/// identifier `id`.
pub open spec fn first_site_place(sites: Seq<SiteCfg>, id: u128, from: nat) -> Option<int>
    decreases sites.len() - from,
{
    if from >= sites.len() {
        None
    } else if sites[from as int].id == id {
        Some(from as int)
    } else {
        first_site_place(sites, id, from + 1)
    }
}

/// `asset` is the configured asset `cfg`, with the name and location of
/// `site` where there is one and none where there is not.
pub open spec fn is_local(cfg: &AssetCfg, site: Option<SiteCfg>, asset: &Asset) -> bool {
    &&& asset.id == cfg.id
    &&& asset.site_id == cfg.site_id
    &&& asset.site_name@ == match site {
        Some(s) => s.name@,
        None => Seq::<char>::empty(),
    }
    &&& asset.name@ == cfg.name@
    &&& asset.location@ == match site {
        Some(s) => s.location@,
        None => Seq::<char>::empty(),
    }
    &&& asset.capacity_mwhr == cfg.capacity_mwhr
    &&& asset.max_mw == cfg.max_mw
    &&& asset.min_mw == cfg.min_mw
    &&& asset.min_soc_pct == cfg.min_soc_pct
    &&& asset.max_soc_pct == cfg.max_soc_pct
    &&& asset.efficiency == cfg.efficiency
    &&& asset.ramp_rate_mw_per_min == cfg.ramp_rate_mw_per_min
}

/// The places of the assets of site `site_id` among the first `n` assets.
pub open spec fn local_places(assets: Seq<AssetCfg>, site_id: u128, n: nat) -> Seq<int>
    decreases n,
{
    if n == 0 {
        Seq::empty()
    } else {
        let before = local_places(assets, site_id, (n - 1) as nat);
        if assets[n - 1].site_id == site_id {
            before.push(n - 1)
        } else {
            before
        }
    }
}

/// The assets that a gateway serves at site `site_id`, in the order
/// configured, each checked against the configuration invariants.  The site
/// itself need not be configured: its assets then have no site name and no
/// location.
pub fn load_assets_for_site(file: &AssetsFile, site_id: u128) -> (outcome: Result<
    Vec<Asset>,
    CatalogueError,
>)
    ensures
        match outcome {
            Ok(assets) => {
                let places = local_places(file.assets@, site_id, file.assets@.len());
                let site = match first_site_place(file.sites@, site_id, 0) {
                    Some(k) => Some(file.sites[k]),
                    None => None,
                };
                &&& file.assets.len() <= MAX_ASSETS
                &&& assets.len() == places.len()
                &&& all_wf(assets@)
                &&& forall|i: int|
                    0 <= i < assets.len() ==> is_local(
                        &file.assets[places[i]],
                        site,
                        &#[trigger] assets[i],
                    )
            },
            Err(CatalogueError::TooManyAssets) => file.assets.len() > MAX_ASSETS,
            Err(CatalogueError::InvalidAsset(bad)) => file.assets.len() <= MAX_ASSETS && bad
                < file.assets.len() && file.assets[bad as int].site_id == site_id && !cfg_valid(
                &file.assets[bad as int],
            ) && forall|j: int|
                0 <= j < bad && file.assets[j].site_id == site_id ==> cfg_valid(
                    &#[trigger] file.assets[j],
                ),
            Err(CatalogueError::SiteNotFound(_)) => false,
        },
{
    if file.assets.len() > MAX_ASSETS {
        return Err(CatalogueError::TooManyAssets);
    }
    let mut found: Option<usize> = None;
    let mut k: usize = 0;
    while k < file.sites.len() && found.is_none()
        invariant
            k <= file.sites.len(),
            first_site_place(file.sites@, site_id, 0) == match found {
                Some(place) => Some(place as int),
                None => first_site_place(file.sites@, site_id, k as nat),
            },
            found is Some ==> found->0 < file.sites.len(),
        decreases file.sites.len() - k + if found is None {
            1int
        } else {
            0int
        },
    {
        if file.sites[k].id == site_id {
            found = Some(k);
        } else {
            k += 1;
        }
    }
    let ghost site = match first_site_place(file.sites@, site_id, 0) {
        Some(p) => Some(file.sites[p]),
        None => None,
    };
    let mut assets: Vec<Asset> = Vec::new();
    let mut i: usize = 0;
    while i < file.assets.len()
        invariant
            file.assets.len() <= MAX_ASSETS,
            i <= file.assets.len(),
            first_site_place(file.sites@, site_id, 0) == match found {
                Some(place) => Some(place as int),
                None => None,
            },
            found is Some ==> found->0 < file.sites.len(),
            site == match first_site_place(file.sites@, site_id, 0) {
                Some(p) => Some(file.sites[p]),
                None => None,
            },
            assets.len() == local_places(file.assets@, site_id, i as nat).len(),
            all_wf(assets@),
            forall|j: int|
                0 <= j < assets.len() ==> is_local(
                    &file.assets[local_places(file.assets@, site_id, i as nat)[j]],
                    site,
                    &#[trigger] assets[j],
                ),
            forall|j: int|
                0 <= j < i && file.assets[j].site_id == site_id ==> cfg_valid(
                    &#[trigger] file.assets[j],
                ),
        decreases file.assets.len() - i,
    {
        let cfg: &AssetCfg = &file.assets[i];
        if cfg.site_id == site_id {
            let (site_name, location) = match found {
                Some(place) => (file.sites[place].name.clone(), file.sites[place].location.clone()),
                None => (String::new(), String::new()),
            };
            let asset = Asset {
                id: cfg.id,
                site_id: cfg.site_id,
                site_name,
                name: cfg.name.clone(),
                location,
                capacity_mwhr: cfg.capacity_mwhr,
                max_mw: cfg.max_mw,
                min_mw: cfg.min_mw,
                min_soc_pct: cfg.min_soc_pct,
                max_soc_pct: cfg.max_soc_pct,
                efficiency: cfg.efficiency,
                ramp_rate_mw_per_min: cfg.ramp_rate_mw_per_min,
            };
            if !asset.is_valid() {
                return Err(CatalogueError::InvalidAsset(i));
            }
            let ghost before = assets@;
            assets.push(asset);
            proof {
                assert forall|j: int|
                    0 <= j < assets.len() implies (#[trigger] assets@[j]).wf() by {
                    if j < before.len() {
                        assert(before[j].wf());
                    }
                }
            }
        }
        i += 1;
    }
    Ok(assets)
}

} // verus!

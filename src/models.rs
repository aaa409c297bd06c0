//! Values that the upstream service returns, as plain data.
use vstd::prelude::*;

verus! {

/// A selection of the user scope of the first API version.
#[derive(Debug, Clone, Copy, PartialEq, Eq, Hash, Structural)]
pub enum Selection {
    Basic,
    Profile,
    Discord,
    PersonalStats,
}

/// A player's gender.
#[derive(Debug, Clone, Copy, PartialEq, Eq, Hash, Structural)]
pub enum Gender {
    Male,
    Female,
    Enby,
}

/// A player's faction membership.
#[derive(Debug, Clone, PartialEq, Eq)]
pub struct Faction {
    pub faction_id: Option<i32>,
    pub faction_name: Option<String>,
    pub days_in_faction: Option<i16>,
    pub position: Option<String>,
    pub faction_tag: Option<String>,
}

/// Where a player is.
#[derive(Debug, Clone, Copy, PartialEq, Eq, Hash, Structural)]
pub enum State {
    Okay,
    Traveling,
    Hospital,
    Abroad,
    Jail,
    Federal,
    Fallen,
}

/// The colour the service shows for a state.
#[derive(Debug, Clone, Copy, PartialEq, Eq, Hash, Structural)]
pub enum StateColour {
    Green,
    Red,
    Blue,
}

/// The Discord account linked to a player.
#[derive(Debug, Clone, Copy, PartialEq, Eq, Structural)]
pub struct Discord {
    pub user_id: i32,
    pub discord_id: i64, 
}

/// A player's life bar.
#[derive(Debug, Clone, Copy, PartialEq, Eq, Structural)]
pub struct LifeBar {
    pub current: i16,
    pub maximum: i16,
    pub increment: i16,
}

/// A player's personal statistics.
#[derive(Debug, Clone, Copy, PartialEq, Eq, Structural)]
pub struct PersonalStats {
    pub attacks_won: i32,
    pub attacks_lost: i32,
    pub defends_won: i32,
    pub defends_lost: i32,
    pub stat_enhancers_used: i32,
    pub refills: i32,
    pub drugs_used: i32,
    pub xanax_taken: i32,
    pub lsd_taken: i32,
    pub net_worth: i64,
    pub cans_used: i32,
    pub boosters_used: i32,
    pub awards: i16,
    pub elo: i16,
    pub days_been_donator: i16,
    pub best_damage: i32,
}

/// Whether a player is online.
#[derive(Debug, Clone, Copy, PartialEq, Eq, Hash, Structural)]
pub enum OnlineStatus {
    Online,
    Offline,
    Idle,
}

/// The result of an attack.
#[derive(Debug, Clone, Copy, PartialEq, Eq, Hash, Structural)]
pub enum AttackResult {
    Attacked,
    Mugged,
    Hospitalized,
    Lost,
    Arrested,
    Escape,
    Interrupted,
    Assist,
    Timeout,
    Stalemate,
    Special,
    Looted,
}

/// The access level that a key was created with.
#[derive(Debug, Clone, Copy, PartialEq, Eq, Hash, Structural)]
pub enum AccessType {
    Custom,
    Public,
    Minimal,
    Limited,
    Full,
}

/// A selection of the key scope.
#[derive(Debug, Clone, Copy, PartialEq, Eq, Hash, Structural)]
pub enum KeySelection {
    Info,
}

/// A selection of the user scope.
#[derive(Debug, Clone, Copy, PartialEq, Eq, Hash, Structural)]
pub enum UserSelection {
    Ammo,
    Attacks,
    AttacksFull,
    Bars,
    Basic,
    BattleStats,
    Bazaar,
    Cooldowns,
    Crimes,
    Discord,
    Display,
    Education,
    Events,
    Gym,
    Hof,
    Honors,
    Icons,
    Inventory,
    JobPoints,
    Log,
    Medals,
    Merits,
    Messages,
    Missions,
    Money,
    Networth,
    NewEvents,
    NewMessages,
    Notifications,
    Perks,
    PersonalStats,
    Profile,
    Properties,
    ReceivedEvents,
    Refills,
    Reports,
    Revives,
    RevivesFull,
    Skills,
    Stocks,
    Timestamp,
    Travel,
    WeaponExp,
    WorkStats,
    Lookup,
    PublicStatus,
    Unknown,
}

/// A selection of the faction scope.
#[derive(Debug, Clone, Copy, PartialEq, Eq, Hash, Structural)]
pub enum FactionSelection {
    Applications,
    Armor,
    ArmoryNews,
    AttackNews,
    Attacks,
    AttacksFull,
    Basic,
    Boosters,
    Cesium,
    Chain,
    ChainReport,
    Chains,
    Contributors,
    Crimenews,
    Crimes,
    Currency,
    Donations,
    Drugs,
    FundsNews,
    MainNews,
    Medical,
    MembershipNews,
    Positions,
    Reports,
    Revives,
    RevivesFull,
    Stats,
    Temporary,
    Territory,
    TerritoryNews,
    Timestamp,
    Upgrades,
    Weapons,
    Lookup,
    Caches,
    CrimeExp,
    Unknown,
}

/// A selection of the company scope.
#[derive(Debug, Clone, Copy, PartialEq, Eq, Hash, Structural)]
pub enum CompanySelection {
    Applications,
    Companies,
    Detailed,
    Employees,
    News,
    NewsFull,
    Profile,
    Stock,
    Timestamp,
    Lookup,
    Unknown,
}

/// A selection of the torn scope.
#[derive(Debug, Clone, Copy, PartialEq, Eq, Hash, Structural)]
pub enum TornSelection {
    Bank,
    Cards,
    ChainReport,
    Companies,
    Competition,
    Education,
    FactionTree,
    Gyms,
    Honors,
    Items,
    ItemStats,
    LogCategories,
    LogTypes,
    Medals,
    OrganisedCrimes,
    PawnShop,
    PokerTables,
    Properties,
    Rackets,
    Raids,
    RankedWars,
    RankedWarReport,
    Stats,
    Stocks,
    Territory,
    TerritoryWars,
    Timestamp,
    Lookup,
    CityShops,
    ItemDetails,
    TerritoryNames,
    TerritoryWarReport,
    RaidReport,
    Unknown,
}

/// A selection of the market scope.
#[derive(Debug, Clone, Copy, PartialEq, Eq, Hash, Structural)]
pub enum MarketSelection {
    Bazaar,
    ItemMarket,
    PointsMarket,
    Timestamp,
    Lookup,
    Unknown,
}

/// A selection of the property scope.
#[derive(Debug, Clone, Copy, PartialEq, Eq, Hash, Structural)]
pub enum PropertySelection {
    Property,
    Timestamp,
    Lookup,
    Unknown,
}

/// The selections that a key may request, per scope.
#[derive(Debug, Clone, PartialEq, Eq)]
pub struct Selections {
    pub user: Vec<UserSelection>,
    pub faction: Vec<FactionSelection>,
    pub company: Vec<CompanySelection>,
    pub torn: Vec<TornSelection>,
    pub market: Vec<MarketSelection>,
    pub property: Vec<PropertySelection>,
    pub key: Vec<KeySelection>,
}

/// What the service reports about a key.
#[derive(Debug, Clone, PartialEq, Eq)]
pub struct Info {
    pub access_level: i16,
    pub access_type: AccessType,
    pub selections: Selections,
}

/// An item offered in a bazaar.
#[derive(Debug, Clone, Copy, PartialEq, Eq, Structural)]
pub struct BazaarItem {
    pub cost: u64,
    pub quantity: u32,
}

/// One team's line of the elimination leaderboard.
#[derive(Debug, Clone, PartialEq, Eq)]
pub struct EliminationLeaderboard {
    pub position: i16,
    pub team: EliminationTeam,
    pub score: i16,
    pub lives: i16,
    pub participants: Option<i16>,
    pub wins: Option<i32>,
    pub losses: Option<i32>,
}

/// The competition that is running.
#[derive(Debug, Clone, PartialEq, Eq)]
pub enum Competition {
    Elimination { teams: Vec<EliminationLeaderboard> },
    Unknown(String),
}

/// The territory of a territory war report.
#[derive(Debug, Clone, PartialEq, Eq)]
pub struct TerritoryWarReportTerritory {
    pub name: String,
}

/// How a territory war ended.
#[derive(Debug, Clone, Copy, PartialEq, Eq, Hash, Structural)]
pub enum TerritoryWarOutcome {
    EndWithPeaceTreaty,
    EndWithDestroyDefense,
    FailAssault,
    SuccessAssault,
}

/// The side of a faction in a territory war.
#[derive(Debug, Clone, Copy, PartialEq, Eq, Hash, Structural)]
pub enum TerritoryWarReportRole {
    Aggressor,
    Defender,
}

/// A faction in a territory war report.
#[derive(Debug, Clone, PartialEq, Eq)]
pub struct TerritoryWarReportFaction {
    pub name: String,
    pub score: i32,
    pub joins: i32,
    pub clears: i32,
    pub role: TerritoryWarReportRole,
}

/// The kind of an item.
#[derive(Debug, Clone, Copy, PartialEq, Eq, Hash, Structural)]
pub enum ItemType {
    Primary,
    Secondary,
    Melee,
    Temporary,
    Defensive,
    Collectible,
    Medical,
    Drug,
    Booster,
    EnergyDrink,
    Alcohol,
    Book,
    Candy,
    Car,
    Clothing,
    Electronic,
    Enhancer,
    Flower,
    Jewelry,
    Other,
    Special,
    SupplyPack,
    Virus,
}

/// The kind of a weapon.
#[derive(Debug, Clone, Copy, PartialEq, Eq, Hash, Structural)]
pub enum WeaponType {
    Slashing,
    Rifle,
    SMG,
    Piercing,
    Clubbing,
    Pistol,
    MachineGun,
    Mechanical,
    Temporary,
    Heavy,
    Shotgun,
}

/// An item of the game.
#[derive(Debug, Clone, PartialEq, Eq)]
pub struct Item {
    pub name: String,
    pub description: String,
    pub effect: Option<String>,
    pub requirement: Option<String>,
    pub item_type: ItemType,
    pub weapon_type: Option<WeaponType>,
    pub buy_price: Option<u64>,
    pub sell_price: Option<u64>,
    pub market_value: Option<u64>,
    pub circulation: Option<u32>,
    pub image: String,
}

/// A team of the elimination competition.
#[derive(Debug, Clone, Copy, PartialEq, Eq, Hash, Structural)]
pub enum EliminationTeam {
    Firestarters,
    HardBoiled,
    QuackAddicts,
    RainMen,
    TotallyBoned,
    RawringThunder,
    DirtyCops,
    LaughingStock,
    JeanTherapy,
    SatansSoldiers,
    WolfPack,
    Sleepyheads,
}

/// Crime counts of the first crime system.
#[derive(Debug, Clone, Copy, PartialEq, Eq, Structural)]
pub struct Crimes1 {
    pub selling_illegal_products: i32,
    pub theft: i32,
    pub auto_theft: i32,
    pub drug_deals: i32,
    pub computer_crimes: i32,
    pub murder: i32,
    pub fraud_crimes: i32,
    pub other: i32,
    pub total: i32,
}

/// Crime counts of the second crime system.
#[derive(Debug, Clone, Copy, PartialEq, Eq, Structural)]
pub struct Crimes2 {
    pub vandalism: i32,
    pub theft: i32,
    pub counterfeiting: i32,
    pub fraud: i32,
    pub illicit_services: i32,
    pub cyber_crime: i32,
    pub extortion: i32,
    pub illegal_production: i32,
    pub total: i32,
}

/// A player's crime counts, under either crime system.
#[derive(Debug, Clone, PartialEq, Eq)]
pub enum CriminalRecord {
    Crimes1(Crimes1),
    Crimes2(Crimes2),
}

} // verus!

pub mod bar;
pub mod calendar;
pub mod chart;
pub mod error;
pub mod holidays;
pub mod indicator;
pub mod instant;
pub mod laws;
pub mod loader;
pub mod param;
pub mod parsing;
pub mod period;
pub mod records;
pub mod resample;
pub mod stock;
pub mod text;
pub mod trading_day;
pub mod window;

pub use crate::bar::Bar;
pub use crate::calendar::Date;
pub use crate::chart::Chart;
pub use crate::error::{CredentialError, DataIntegrityError, ParseFailure};
pub use crate::holidays::{
    holidays, is_holiday, is_trading_day, is_weekend, not_holiday, to_trading_day, Holiday,
    FORMAT, FULL_FORMAT, MONTH_FORMAT,
};
pub use crate::indicator::ValueIndex;
pub use crate::instant::Instant;
pub use crate::loader::{
    sign, Credential, CredentialProvider, EnvCredentialProvider, FileCredentialProvider,
    LocalLoader, MultiCredentialProvider, RemoteLoader, StaticCredentialProvider,
};
pub use crate::param::ChartParamter;
pub use crate::period::Period;
pub use crate::resample::{join_sessions, link_bars, merge_adjacent_bars, week_chart};
pub use crate::stock::{GetSymbolCode, Stock, Stocks};
pub use crate::trading_day::TradingDay;
pub use crate::window::{
    LatestIter, LatestIterExt, LoopIter, LoopIterExt, SliceIter, SliceIterExt,
};

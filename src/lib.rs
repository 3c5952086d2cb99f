//! Live portfolio state for a brokerage dashboard: positions grouped by
//! underlying, cash balances, the grouped and collapsible row navigation,
//! and the table of aggregated values drawn from them.

/// Exact decimal numbers and the arithmetic on them.
pub mod decimal;
/// Text keys and their order.
pub mod keys;
/// The data model: positions, groups, balances and the row layout.
pub mod portfolio;
/// Moving the selection and opening or closing groups.
pub mod navigation;
/// Looking up positions and applying streamed updates.
pub mod updates;
/// Building the portfolio and overwriting balances.
pub mod builder;
/// Signed values, profits and their sums.
pub mod valuation;
/// The rows of the dashboard's table.
pub mod table;
/// One step of the event loop.
pub mod events;
/// Properties that hold across operations.
pub mod laws;

//! Pending trades between players.

use vstd::prelude::*;
use crate::archive::TradeDto;
use crate::command::{AssetList, AssetView};

verus! {

/// A pending trade: `from` gives `offer` to `to`, `to` gives `demand` to `from`.
#[derive(Debug)]
pub struct Trade {
    pub id: u128,
    pub from: u128,
    pub to: u128,
    pub offer: AssetList,
    pub demand: AssetList,
}

/// The abstract content of a trade.
#[verifier::ext_equal]
pub struct TradeView {
    pub id: u128,
    pub from: u128,
    pub to: u128,
    pub offer: AssetView,
    pub demand: AssetView,
}

impl View for Trade {
    type V = TradeView;

    open spec fn view(&self) -> TradeView {
        TradeView { id: self.id, from: self.from, to: self.to, offer: self.offer@, demand: self.demand@ }
    }
}

impl Clone for Trade {
    fn clone(&self) -> (r: Self)
        ensures
            r@ == self@,
    {
        Trade { id: self.id, from: self.from, to: self.to, offer: self.offer.clone(), demand: self.demand.clone() }
    }
}

/// An alias kept for callers that name the assets of a trade.
pub type TradeAssets = AssetList;

impl Trade {
    /// The trade as saved in a game archive.
    pub fn to_dto(&self) -> (d: TradeDto)
        ensures
            d.id == self.id,
            d.from == self.from,
            d.to == self.to,
            d.offer@ == self.offer@,
            d.demand@ == self.demand@,
    {
        TradeDto { id: self.id, from: self.from, to: self.to, offer: self.offer.clone(), demand: self.demand.clone() }
    }

    /// The trade that a saved entry describes.
    pub fn restore(dto: &TradeDto) -> (t: Self)
        ensures
            t@ == (TradeView { id: dto.id, from: dto.from, to: dto.to, offer: dto.offer@, demand: dto.demand@ }),
    {
        Trade { id: dto.id, from: dto.from, to: dto.to, offer: dto.offer.clone(), demand: dto.demand.clone() }
    }
}

} // verus!

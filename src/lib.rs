//! Conversion of market candles into equivolume boxes, with the request
//! shapes of the quote provider that supplies the candles.

pub mod equivolume;
pub mod oanda;
pub mod price;

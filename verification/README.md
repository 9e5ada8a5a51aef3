# bare_metal

Verified core of a series of bare-metal STM32F4 firmware examples (LED blink,
SysTick timing, UART output, formatted printing, a flash-backed key-value store
and a small LED web server).

* `src/` — the library, verified with Verus:
  * `clock` — the SysTick millisecond counter and wrap-safe delays;
  * `regs` — register values for GPIO, USART3, SysTick and Ethernet bring-up;
  * `leds` — LED output-register updates and the LED state record;
  * `decimal` — decimal digits of numbers sent over the serial port;
  * `storage` — the key-value store over emulated flash;
  * `http` — request-line parsing and request handling for the LED server;
  * `demo` — the per-iteration decisions of the demo main loops.
* `tests/` — tests of the library.
* `app/` — the firmware entry points: register access, interrupts, serial I/O
  and the main loops, calling into the library.

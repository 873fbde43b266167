use vstd::prelude::*;

verus! {

/// The landing page.
pub const INDEX_HTML: &'static str = "
        <!DOCTYPE html>
        <html>
        <head>
            <title>Big Red Internet Button</title>
            <style>
                body {
                    background: #000;
                    color: #0f0;
                    font-family: 'Courier New', monospace;
                    display: flex;
                    justify-content: center;
                    align-items: center;
                    height: 100vh;
                    margin: 0;
                }
                .container {
                    text-align: center;
                }
                h1 {
                    font-size: 3em;
                    text-shadow: 0 0 10px #0f0;
                }
            </style>
        </head>
        <body>
            <div class=\"container\">
                <h1>\u{1F680} BIG RED INTERNET BUTTON \u{1F680}</h1>
                <p>Nuclear Destruction Simulator Backend</p>
                <p>Status: OPERATIONAL</p>
                <p><a href=\"/admin\" style=\"color: #0f0;\">Admin Panel</a></p>
            </div>
        </body>
        </html>
        ";

/// The admin page up to the number of destructions.
pub const ADMIN_PAGE_HEAD: &'static str = "
        <!DOCTYPE html>
        <html>
        <head>
            <title>Admin - World Destruction Log</title>
            <meta charset=\"utf-8\">
            <meta name=\"viewport\" content=\"width=device-width, initial-scale=1\">
            <style>
                * {
                    margin: 0;
                    padding: 0;
                    box-sizing: border-box;
                }
                body {
                    background: linear-gradient(135deg, #000000 0%, #1a0000 100%);
                    color: #ff3333;
                    font-family: 'Courier New', monospace;
                    padding: 20px;
                    min-height: 100vh;
                }
                .container {
                    max-width: 1200px;
                    margin: 0 auto;
                }
                h1 {
                    text-align: center;
                    font-size: 3em;
                    margin-bottom: 10px;
                    text-shadow: 0 0 20px #ff0000, 0 0 40px #ff0000;
                    animation: glow 2s ease-in-out infinite alternate;
                }
                @keyframes glow {
                    from { text-shadow: 0 0 20px #ff0000, 0 0 40px #ff0000; }
                    to { text-shadow: 0 0 30px #ff0000, 0 0 60px #ff0000, 0 0 80px #ff0000; }
                }
                .subtitle {
                    text-align: center;
                    font-size: 1.2em;
                    margin-bottom: 30px;
                    color: #ff6666;
                }
                .stats {
                    background: rgba(255, 0, 0, 0.1);
                    border: 2px solid #ff3333;
                    border-radius: 10px;
                    padding: 20px;
                    margin-bottom: 30px;
                    text-align: center;
                }
                .stats h2 {
                    font-size: 4em;
                    color: #ff0000;
                    text-shadow: 0 0 10px #ff0000;
                }
                .stats p {
                    font-size: 1.2em;
                    color: #ff6666;
                    margin-top: 10px;
                }
                table {
                    width: 100%;
                    border-collapse: collapse;
                    background: rgba(0, 0, 0, 0.5);
                    border: 2px solid #ff3333;
                    border-radius: 10px;
                    overflow: hidden;
                }
                th, td {
                    padding: 15px;
                    text-align: left;
                    border-bottom: 1px solid #ff3333;
                }
                th {
                    background: rgba(255, 0, 0, 0.2);
                    font-size: 1.2em;
                    text-transform: uppercase;
                    color: #ff6666;
                }
                tr:hover {
                    background: rgba(255, 0, 0, 0.1);
                }
                .refresh {
                    text-align: center;
                    margin-top: 20px;
                }
                .refresh a {
                    display: inline-block;
                    padding: 10px 20px;
                    background: #ff0000;
                    color: #000;
                    text-decoration: none;
                    border-radius: 5px;
                    font-weight: bold;
                    transition: all 0.3s;
                }
                .refresh a:hover {
                    background: #ff3333;
                    box-shadow: 0 0 20px #ff0000;
                }
                .api-info {
                    margin-top: 30px;
                    padding: 20px;
                    background: rgba(0, 255, 0, 0.05);
                    border: 1px solid #0f0;
                    border-radius: 5px;
                    color: #0f0;
                }
                .api-info h3 {
                    color: #0f0;
                    margin-bottom: 10px;
                }
                .api-info code {
                    background: rgba(0, 0, 0, 0.5);
                    padding: 2px 5px;
                    border-radius: 3px;
                }
            </style>
            <script>
                // Auto-refresh every 5 seconds
                setTimeout(function(){
                    location.reload();
                }, 5000);
            </script>
        </head>
        <body>
            <div class=\"container\">
                <h1>\u{1F480} WORLD DESTRUCTION LOG \u{1F480}</h1>
                <p class=\"subtitle\">Nuclear Launch Control Center</p>

                <div class=\"stats\">
                    <h2>";

/// The admin page between the number of destructions and the table rows.
pub const ADMIN_PAGE_MIDDLE: &'static str = "</h2>
                    <p>TOTAL WORLD DESTRUCTIONS</p>
                </div>

                <table>
                    <thead>
                        <tr>
                            <th>Event ID</th>
                            <th>Timestamp</th>
                            <th>Device ID</th>
                        </tr>
                    </thead>
                    <tbody>
                        ";

/// The admin page after the table rows.
pub const ADMIN_PAGE_TAIL: &'static str = "
                    </tbody>
                </table>

                <div class=\"refresh\">
                    <a href=\"/admin\">\u{1F504} Refresh Now</a>
                    <p style=\"margin-top: 10px; color: #666;\">Auto-refreshes every 5 seconds</p>
                </div>

                <div class=\"api-info\">
                    <h3>\u{1F4E1} API Endpoints</h3>
                    <p><strong>POST /api/destroy</strong> - Trigger world destruction</p>
                    <p style=\"margin-top: 5px;\">Body: <code>{\"device_id\": \"esp32-001\"}</code></p>
                    <p style=\"margin-top: 10px;\"><strong>GET /api/events</strong> - Get all destruction events (JSON)</p>
                </div>
            </div>
        </body>
        </html>
        ";

/// The table row shown while nothing has been destroyed yet.
pub const NO_EVENTS_ROW: &'static str = "<tr><td colspan='3' style='text-align: center; padding: 20px;'>No destructions yet. World is safe... for now.</td></tr>";

/// Start of an event row, before the event id.
pub const ROW_OPEN: &'static str = "<tr><td>#";

/// Between two cells of an event row.
pub const CELL_BREAK: &'static str = "</td><td>";

/// End of an event row.
pub const ROW_CLOSE: &'static str = "</td></tr>";

/// Between two event rows.
pub const ROW_BREAK: &'static str = "\n";

/// Shown for an event whose device did not say who it is.
pub const UNKNOWN_DEVICE: &'static str = "Unknown";

/// How the admin page writes an event's time.
pub const ADMIN_TIME_FORMAT: &'static str = "%Y-%m-%d %H:%M:%S UTC";

} // verus!
